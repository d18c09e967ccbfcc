//! Four- and five-level x86_64 paging: entry flags, entries, tables,
//! addresses, and walks over the page tables held in identity-mapped
//! physical memory.
use vstd::prelude::*;
use crate::pmm::{PhysicalMemoryManager, lemma_exact_counter_zone_pre, lemma_exact_counter_has_free, lemma_wf_exact};
use crate::zones::MemoryZone;
use crate::memory_error::MemoryError;

verus! {

/// Page sizes.
pub const PAGE_SIZE: usize = 4096;
pub const PAGE_SIZE_2MB: usize = 0x20_0000;
pub const PAGE_SIZE_1GB: usize = 0x4000_0000;

/// Entries per page table.
pub const PAGE_TABLE_ENTRIES: usize = 512;

/// Virtual address widths and the sizes they span.
pub const LA48_VIRT_ADDR_BITS: usize = 48;
pub const LA57_VIRT_ADDR_BITS: usize = 57;
pub const LA48_VIRT_ADDR_SIZE: u64 = 0x1_0000_0000_0000;
pub const LA57_VIRT_ADDR_SIZE: u64 = 0x200_0000_0000_0000;

/// Physical-address bits of an entry (12 ..= 51).
pub const ADDR_MASK: u64 = 0x000F_FFFF_FFFF_F000;

/// Bits of an entry that hold flags: bits 0 ..= 11 and no-execute (bit 63).
pub const FLAGS_MASK: u64 = 0x8000_0000_0000_0FFF;

/// Flags of a page table entry.
#[derive(PartialEq, Eq, Structural, Clone, Copy, Debug)]
pub struct PageTableFlags(pub u64);

impl PageTableFlags {
    /// Present.
    pub const PRESENT: u64 = 0x1;
    /// Writable.
    pub const WRITABLE: u64 = 0x2;
    /// User-accessible.
    pub const USER: u64 = 0x4;
    /// Write-through caching (PAT bit 0).
    pub const WRITE_THROUGH: u64 = 0x8;
    /// Cache disabled (PAT bit 1).
    pub const CACHE_DISABLE: u64 = 0x10;
    /// Accessed.
    pub const ACCESSED: u64 = 0x20;
    /// Dirty.
    pub const DIRTY: u64 = 0x40;
    /// Huge page (2 MiB or 1 GiB).
    pub const HUGE_PAGE: u64 = 0x80;
    /// Global.
    pub const GLOBAL: u64 = 0x100;
    /// PAT bit of a 4 KiB entry (bit 7, shared with the huge-page bit).
    pub const PAT: u64 = 0x80;
    /// No-execute.
    pub const NO_EXECUTE: u64 = 0x8000_0000_0000_0000;

    /// No flags.
    pub fn new() -> (r: PageTableFlags)
        ensures
            r.0 == 0,
    {
        PageTableFlags(0)
    }

    /// Flags with the given raw value.
    pub fn from_raw(flags: u64) -> (r: PageTableFlags)
        ensures
            r.0 == flags,
    {
        PageTableFlags(flags)
    }

    /// Raw value.
    pub fn raw(&self) -> (r: u64)
        ensures
            r == self.0,
    {
        self.0
    }

    /// Whether any bit of `flag` is set.
    pub fn contains(&self, flag: u64) -> (r: bool)
        ensures
            r == (self.0 & flag != 0),
    {
        (self.0 & flag) != 0
    }

    /// Set the bits of `flag`.
    pub fn set(&mut self, flag: u64)
        ensures
            final(self).0 == old(self).0 | flag,
    {
        self.0 = self.0 | flag;
    }

    /// Clear the bits of `flag`.
    pub fn clear(&mut self, flag: u64)
        ensures
            final(self).0 == old(self).0 & !flag,
    {
        self.0 = self.0 & !flag;
    }

    /// Present, writable, global.
    pub fn kernel() -> (r: PageTableFlags)
        ensures
            r.0 == PageTableFlags::PRESENT | PageTableFlags::WRITABLE | PageTableFlags::GLOBAL,
    {
        PageTableFlags(Self::PRESENT | Self::WRITABLE | Self::GLOBAL)
    }

    /// Present, writable, user.
    pub fn user() -> (r: PageTableFlags)
        ensures
            r.0 == PageTableFlags::PRESENT | PageTableFlags::WRITABLE | PageTableFlags::USER,
    {
        PageTableFlags(Self::PRESENT | Self::WRITABLE | Self::USER)
    }

    /// Present, global, read-only.
    pub fn kernel_readonly() -> (r: PageTableFlags)
        ensures
            r.0 == PageTableFlags::PRESENT | PageTableFlags::GLOBAL,
    {
        PageTableFlags(Self::PRESENT | Self::GLOBAL)
    }

    /// Present, user, read-only.
    pub fn user_readonly() -> (r: PageTableFlags)
        ensures
            r.0 == PageTableFlags::PRESENT | PageTableFlags::USER,
    {
        PageTableFlags(Self::PRESENT | Self::USER)
    }

    /// Kernel flags with the given memory-type (PAT) bits.
    pub fn kernel_with_memory_type(pat_flags: u64) -> (r: PageTableFlags)
        ensures
            r.0 == PageTableFlags::PRESENT | PageTableFlags::WRITABLE | PageTableFlags::GLOBAL | pat_flags,
    {
        PageTableFlags(Self::PRESENT | Self::WRITABLE | Self::GLOBAL | pat_flags)
    }

    /// User flags with the given memory-type (PAT) bits.
    pub fn user_with_memory_type(pat_flags: u64) -> (r: PageTableFlags)
        ensures
            r.0 == PageTableFlags::PRESENT | PageTableFlags::WRITABLE | PageTableFlags::USER | pat_flags,
    {
        PageTableFlags(Self::PRESENT | Self::WRITABLE | Self::USER | pat_flags)
    }

    /// Uncacheable kernel page (PCD set), for MMIO.
    pub fn kernel_uncacheable() -> (r: PageTableFlags)
        ensures
            r.0 == PageTableFlags::PRESENT | PageTableFlags::WRITABLE | PageTableFlags::GLOBAL | PageTableFlags::CACHE_DISABLE,
    {
        PageTableFlags(Self::PRESENT | Self::WRITABLE | Self::GLOBAL | Self::CACHE_DISABLE)
    }

    /// Write-combining kernel page (PWT and PAT set), for framebuffers.
    pub fn kernel_write_combining() -> (r: PageTableFlags)
        ensures
            r.0 == PageTableFlags::PRESENT | PageTableFlags::WRITABLE | PageTableFlags::GLOBAL | PageTableFlags::WRITE_THROUGH | PageTableFlags::PAT,
    {
        PageTableFlags(Self::PRESENT | Self::WRITABLE | Self::GLOBAL | Self::WRITE_THROUGH | Self::PAT)
    }
}

/// Value of an entry pointing at `addr` with flags `flags`.
pub open spec fn entry_value(addr: u64, flags: u64) -> u64 {
    (addr & ADDR_MASK) | flags
}

/// A page table entry, the same at every level.
#[derive(Clone, Copy, Debug)]
pub struct PageTableEntry(pub u64);

impl PageTableEntry {
    /// The empty entry.
    pub fn new() -> (r: PageTableEntry)
        ensures
            r.0 == 0,
    {
        PageTableEntry(0)
    }

    /// Present bit.
    pub fn is_present(&self) -> (r: bool)
        ensures
            r == (self.0 & PageTableFlags::PRESENT != 0),
    {
        (self.0 & PageTableFlags::PRESENT) != 0
    }

    /// Huge-page bit.
    pub fn is_huge(&self) -> (r: bool)
        ensures
            r == (self.0 & PageTableFlags::HUGE_PAGE != 0),
    {
        (self.0 & PageTableFlags::HUGE_PAGE) != 0
    }

    /// Physical address held (bits 12 ..= 51).
    pub fn address(&self) -> (r: u64)
        ensures
            r == self.0 & ADDR_MASK,
    {
        self.0 & ADDR_MASK
    }

    /// Flags held: the low 12 bits and the no-execute bit 63.
    pub fn flags(&self) -> (r: PageTableFlags)
        ensures
            r.0 == self.0 & FLAGS_MASK,
    {
        PageTableFlags::from_raw(self.0 & FLAGS_MASK)
    }

    /// Point the entry at `addr` with `flags`.
    pub fn set(&mut self, addr: u64, flags: PageTableFlags)
        ensures
            final(self).0 == entry_value(addr, flags.0),
    {
        self.0 = (addr & ADDR_MASK) | flags.raw();
    }

    /// Empty the entry.
    pub fn clear(&mut self)
        ensures
            final(self).0 == 0,
    {
        self.0 = 0;
    }

    /// Raw value.
    pub fn raw(&self) -> (r: u64)
        ensures
            r == self.0,
    {
        self.0
    }
}

/// A page table: 512 entries.
pub struct PageTable {
    entries: Vec<PageTableEntry>,
}

impl View for PageTable {
    type V = Seq<PageTableEntry>;

    closed spec fn view(&self) -> Seq<PageTableEntry> {
        self.entries@
    }
}

impl PageTable {
    /// The table has 512 entries.
    pub closed spec fn wf(&self) -> bool {
        self.entries@.len() == PAGE_TABLE_ENTRIES
    }

    /// A table of empty entries.
    pub fn new() -> (r: PageTable)
        ensures
            r.wf(),
            forall|i: int| 0 <= i < 512 ==> (#[trigger] r@[i]).0 == 0,
    {
        let mut entries: Vec<PageTableEntry> = Vec::new();
        let mut i: usize = 0;
        while i < PAGE_TABLE_ENTRIES
            invariant
                i <= PAGE_TABLE_ENTRIES,
                entries@.len() == i,
                forall|j: int| 0 <= j < i ==> (#[trigger] entries@[j]).0 == 0,
            decreases PAGE_TABLE_ENTRIES - i,
        {
            entries.push(PageTableEntry::new());
            i += 1;
        }
        PageTable { entries }
    }

    /// Entry `index`, if the index is below 512.
    pub fn get(&self, index: usize) -> (r: Option<&PageTableEntry>)
        requires
            self.wf(),
        ensures
            index < 512 ==> r == Some(&self@[index as int]),
            index >= 512 ==> r is None,
    {
        if index < self.entries.len() {
            Some(&self.entries[index])
        } else {
            None
        }
    }

    /// Entry `index` for writing, if the index is below 512.
    pub fn get_mut(&mut self, index: usize) -> (r: Option<&mut PageTableEntry>)
        requires
            old(self).wf(),
        ensures
            index < 512 ==> (r matches Some(e) && *e == old(self)@[index as int]
                && final(self)@ == old(self)@.update(index as int, *final(e))),
            index >= 512 ==> r is None && final(self)@ == old(self)@,
            final(self).wf(),
    {
        if index < self.entries.len() {
            Some(&mut self.entries[index])
        } else {
            None
        }
    }

    /// Empty every entry.
    pub fn clear(&mut self)
        requires
            old(self).wf(),
        ensures
            final(self).wf(),
            forall|i: int| 0 <= i < 512 ==> (#[trigger] final(self)@[i]).0 == 0,
    {
        let mut i: usize = 0;
        while i < self.entries.len()
            invariant
                self.entries@.len() == PAGE_TABLE_ENTRIES,
                i <= PAGE_TABLE_ENTRIES,
                forall|j: int| 0 <= j < i ==> (#[trigger] self.entries@[j]).0 == 0,
            decreases PAGE_TABLE_ENTRIES - i,
        {
            self.entries.set(i, PageTableEntry::new());
            i += 1;
        }
    }
}

/// A new table of empty entries.
pub fn create_page_table() -> (r: PageTable)
    ensures
        r.wf(),
        forall|i: int| 0 <= i < 512 ==> (#[trigger] r@[i]).0 == 0,
{
    PageTable::new()
}

/// Paging mode.
#[derive(PartialEq, Eq, Structural, Clone, Copy, Debug)]
pub enum PagingMode {
    /// Four levels, 48-bit virtual addresses.
    FourLevel,
    /// Five levels (LA57), 57-bit virtual addresses.
    FiveLevel,
}

/// Level of the root table of a mode (0 is the last level, the PT).
pub open spec fn top_level(mode: PagingMode) -> nat {
    match mode {
        PagingMode::FourLevel => 3,
        PagingMode::FiveLevel => 4,
    }
}

/// State of the paging system.
pub struct PagingManager {
    mode: PagingMode,
    root_table_phys: u64,
    la57_supported: bool,
    nx_supported: bool,
}

impl PagingManager {
    /// Paging mode.
    pub closed spec fn mode_spec(&self) -> PagingMode {
        self.mode
    }

    /// Physical address of the root table.
    pub closed spec fn root_spec(&self) -> u64 {
        self.root_table_phys
    }

    /// Whether the CPU supports LA57.
    pub closed spec fn la57_spec(&self) -> bool {
        self.la57_supported
    }

    /// Whether the CPU supports NX.
    pub closed spec fn nx_spec(&self) -> bool {
        self.nx_supported
    }

    /// Four-level mode, no root, no features.
    pub fn new() -> (r: PagingManager)
        ensures
            r.mode_spec() == PagingMode::FourLevel,
            r.root_spec() == 0,
            !r.la57_spec(),
            !r.nx_spec(),
    {
        PagingManager { mode: PagingMode::FourLevel, root_table_phys: 0, la57_supported: false, nx_supported: false }
    }

    /// Paging mode.
    pub fn mode(&self) -> (r: PagingMode)
        ensures
            r == self.mode_spec(),
    {
        self.mode
    }

    /// Whether the CPU supports LA57.
    pub fn is_la57_supported(&self) -> (r: bool)
        ensures
            r == self.la57_spec(),
    {
        self.la57_supported
    }

    /// Whether the CPU supports NX.
    pub fn is_nx_supported(&self) -> (r: bool)
        ensures
            r == self.nx_spec(),
    {
        self.nx_supported
    }

    /// Physical address of the root table.
    pub fn root_table_phys(&self) -> (r: u64)
        ensures
            r == self.root_spec(),
    {
        self.root_table_phys
    }
}

/// LA57 support from CPUID leaf 7's ECX (bit 16).
pub fn check_la57_support(cpuid_7_ecx: u32) -> (r: bool)
    ensures
        r == (cpuid_7_ecx & 0x1_0000 != 0),
{
    (cpuid_7_ecx & 0x1_0000) != 0
}

/// NX support from CPUID leaf 0x8000_0001's EDX (bit 20).
pub fn check_nx_support(cpuid_ext_edx: u32) -> (r: bool)
    ensures
        r == (cpuid_ext_edx & 0x10_0000 != 0),
{
    (cpuid_ext_edx & 0x10_0000) != 0
}

/// Whether CR4 enables LA57 (bit 12).
pub fn is_la57_enabled(cr4: u64) -> (r: bool)
    ensures
        r == (cr4 & 0x1000 != 0),
{
    (cr4 & 0x1000) != 0
}

/// The manager for the given CPU features, CR4 and root table: five-level
/// mode when CR4 enables LA57, and the root with its CR3 control bits
/// (PCID, PWT, PCD) cleared.
pub fn paging_init(root_table_phys: u64, cpuid_7_ecx: u32, cpuid_ext_edx: u32, cr4: u64) -> (r: PagingManager)
    ensures
        r.la57_spec() == (cpuid_7_ecx & 0x1_0000 != 0),
        r.nx_spec() == (cpuid_ext_edx & 0x10_0000 != 0),
        r.mode_spec() == if cr4 & 0x1000 != 0 {
            PagingMode::FiveLevel
        } else {
            PagingMode::FourLevel
        },
        r.root_spec() == root_table_phys & !0xFFFu64,
{
    let la57_supported = check_la57_support(cpuid_7_ecx);
    let nx_supported = check_nx_support(cpuid_ext_edx);
    let mode = if is_la57_enabled(cr4) {
        PagingMode::FiveLevel
    } else {
        PagingMode::FourLevel
    };
    let root_aligned = root_table_phys & !0xFFFu64;
    PagingManager { mode, root_table_phys: root_aligned, la57_supported, nx_supported }
}

/// The root table address CR3 holds (its flag bits cleared).
pub fn get_current_page_table(cr3: u64) -> (r: u64)
    ensures
        r == cr3 & ADDR_MASK,
{
    cr3 & ADDR_MASK
}

/// Index into the table of level `lvl` (4 = PML5, 3 = PML4, 2 = PDPT, 1 = PD,
/// 0 = PT) for virtual address `va`.
pub open spec fn va_index(va: u64, lvl: nat) -> u64 {
    if lvl == 4 {
        (va >> 48u64) & 0x1FF
    } else if lvl == 3 {
        (va >> 39u64) & 0x1FF
    } else if lvl == 2 {
        (va >> 30u64) & 0x1FF
    } else if lvl == 1 {
        (va >> 21u64) & 0x1FF
    } else {
        (va >> 12u64) & 0x1FF
    }
}

/// `va` is canonical in the given mode: the bits above the address width are
/// all zero or all one.
pub open spec fn canonical(va: u64, mode: PagingMode) -> bool {
    match mode {
        PagingMode::FourLevel => va >> 47u64 == 0 || va >> 47u64 == 0x1_FFFF,
        PagingMode::FiveLevel => va >> 56u64 == 0 || va >> 56u64 == 0xFF,
    }
}

/// A virtual address.
#[derive(Clone, Copy, Debug)]
pub struct VirtAddr {
    pub addr: u64,
}

impl VirtAddr {
    /// The address `addr`.
    pub fn new(addr: u64) -> (r: VirtAddr)
        ensures
            r.addr == addr,
    {
        VirtAddr { addr }
    }

    /// Raw address.
    pub fn as_u64(&self) -> (r: u64)
        ensures
            r == self.addr,
    {
        self.addr
    }

    /// PML5 index (bits 48 ..= 56).
    pub fn pml5_index(&self) -> (r: usize)
        ensures
            r == va_index(self.addr, 4),
            r < 512,
    {
        proof {
            lemma_va_bits(self.addr);
        }
        ((self.addr >> 48u64) & 0x1FF) as usize
    }

    /// PML4 index (bits 39 ..= 47).
    pub fn pml4_index(&self) -> (r: usize)
        ensures
            r == va_index(self.addr, 3),
            r < 512,
    {
        proof {
            lemma_va_bits(self.addr);
        }
        ((self.addr >> 39u64) & 0x1FF) as usize
    }

    /// PDPT index (bits 30 ..= 38).
    pub fn pdpt_index(&self) -> (r: usize)
        ensures
            r == va_index(self.addr, 2),
            r < 512,
    {
        proof {
            lemma_va_bits(self.addr);
        }
        ((self.addr >> 30u64) & 0x1FF) as usize
    }

    /// PD index (bits 21 ..= 29).
    pub fn pd_index(&self) -> (r: usize)
        ensures
            r == va_index(self.addr, 1),
            r < 512,
    {
        proof {
            lemma_va_bits(self.addr);
        }
        ((self.addr >> 21u64) & 0x1FF) as usize
    }

    /// PT index (bits 12 ..= 20).
    pub fn pt_index(&self) -> (r: usize)
        ensures
            r == va_index(self.addr, 0),
            r < 512,
    {
        proof {
            lemma_va_bits(self.addr);
        }
        ((self.addr >> 12u64) & 0x1FF) as usize
    }

    /// Offset within the 4 KiB page (bits 0 ..= 11).
    pub fn page_offset(&self) -> (r: usize)
        ensures
            r == self.addr & 0xFFF,
    {
        proof {
            lemma_va_bits(self.addr);
        }
        (self.addr & 0xFFF) as usize
    }

    /// Canonical for 48-bit addresses: bits 47 ..= 63 all zero or all one
    /// (bit 47 extended through the top).
    pub fn is_canonical_la48(&self) -> (r: bool)
        ensures
            r == canonical(self.addr, PagingMode::FourLevel),
    {
        let upper_bits = self.addr >> 47u64;
        upper_bits == 0 || upper_bits == 0x1_FFFF
    }

    /// Canonical for 57-bit addresses: bits 56 ..= 63 all zero or all one
    /// (bit 56 extended through the top).
    pub fn is_canonical_la57(&self) -> (r: bool)
        ensures
            r == canonical(self.addr, PagingMode::FiveLevel),
    {
        let upper_bits = self.addr >> 56u64;
        upper_bits == 0 || upper_bits == 0xFF
    }
}

/// A physical address.
#[derive(PartialEq, Eq, Structural, Clone, Copy, Debug)]
pub struct PhysAddr(pub u64);

impl PhysAddr {
    /// The address `addr`.
    pub fn new(addr: u64) -> (r: PhysAddr)
        ensures
            r.0 == addr,
    {
        PhysAddr(addr)
    }

    /// Raw address.
    pub fn as_u64(&self) -> (r: u64)
        ensures
            r == self.0,
    {
        self.0
    }

    /// Whether the address is 4 KiB aligned.
    pub fn is_aligned(&self) -> (r: bool)
        ensures
            r == (self.0 % 4096 == 0),
    {
        proof {
            lemma_page_mask(self.0);
        }
        (self.0 & 0xFFF) == 0
    }

    /// Rounded down to a page boundary.
    pub fn align_down(&self) -> (r: PhysAddr)
        ensures
            r.0 == self.0 - self.0 % 4096,
    {
        proof {
            lemma_page_mask(self.0);
        }
        PhysAddr(self.0 & !0xFFFu64)
    }

    /// Rounded up to a page boundary.
    pub fn align_up(&self) -> (r: PhysAddr)
        requires
            self.0 + 0xFFF <= u64::MAX,
        ensures
            r.0 == (self.0 + 4095) / 4096 * 4096,
    {
        let b: u64 = self.0 + 0xFFF;
        proof {
            lemma_page_mask(b);
        }
        PhysAddr(b & !0xFFFu64)
    }
}

/// Bytes of physical memory the kernel keeps identity-mapped (4 GiB).
pub const IDENTITY_MAP_LIMIT: u64 = 0x1_0000_0000;

/// The identity-mapped physical memory that holds the page tables, as
/// 64-bit words: word `w` holds the bytes at `8 * w .. 8 * w + 8`.
pub struct PhysMemory {
    words: Vec<u64>,
}

impl View for PhysMemory {
    type V = Seq<u64>;

    closed spec fn view(&self) -> Seq<u64> {
        self.words@
    }
}

/// The 4 KiB table at `table` lies inside memory `mem`.
pub open spec fn table_ok(mem: Seq<u64>, table: u64) -> bool {
    table % 4096 == 0 && table + 4096 <= 8 * mem.len()
}

/// Word holding entry `idx` of the table at `table`.
pub open spec fn entry_word(table: u64, idx: int) -> int {
    table as int / 8 + idx
}

/// Entry `idx` of the table at `table`.
pub open spec fn pte(mem: Seq<u64>, table: u64, idx: int) -> u64 {
    mem[entry_word(table, idx)]
}

impl PhysMemory {
    /// The memory fits in the identity-mapped range.
    pub closed spec fn wf(&self) -> bool {
        8 * self.words@.len() <= IDENTITY_MAP_LIMIT
    }

    /// `size` bytes of zeroed memory (rounded down to whole words).
    pub fn new(size: u64) -> (r: PhysMemory)
        requires
            size <= IDENTITY_MAP_LIMIT,
        ensures
            r.wf(),
            r@.len() == size / 8,
            forall|w: int| 0 <= w < r@.len() ==> #[trigger] r@[w] == 0,
    {
        let n = (size / 8) as usize;
        let mut words: Vec<u64> = Vec::new();
        let mut i: usize = 0;
        while i < n
            invariant
                i <= n,
                words@.len() == i,
                forall|w: int| 0 <= w < i ==> #[trigger] words@[w] == 0,
            decreases n - i,
        {
            words.push(0);
            i += 1;
        }
        PhysMemory { words }
    }

    /// Size in bytes.
    pub fn size(&self) -> (r: u64)
        requires
            self.wf(),
        ensures
            r == 8 * self@.len(),
    {
        (self.words.len() as u64) * 8
    }

    /// The 8-byte word at `addr`, if `addr` is 8-byte aligned and in memory.
    pub fn read_u64(&self, addr: u64) -> (r: Option<u64>)
        requires
            self.wf(),
        ensures
            addr % 8 == 0 && addr / 8 < self@.len() ==> r == Some(self@[addr as int / 8]),
            !(addr % 8 == 0 && addr / 8 < self@.len()) ==> r is None,
    {
        if addr % 8 == 0 && addr / 8 < self.words.len() as u64 {
            Some(self.words[(addr / 8) as usize])
        } else {
            None
        }
    }

    /// Store `value` at `addr` if `addr` is 8-byte aligned and in memory;
    /// returns whether it was stored.
    pub fn write_u64(&mut self, addr: u64, value: u64) -> (r: bool)
        requires
            old(self).wf(),
        ensures
            final(self).wf(),
            r == (addr % 8 == 0 && addr / 8 < old(self)@.len()),
            r ==> final(self)@ == old(self)@.update(addr as int / 8, value),
            !r ==> final(self)@ == old(self)@,
    {
        if addr % 8 == 0 && addr / 8 < self.words.len() as u64 {
            self.words.set((addr / 8) as usize, value);
            true
        } else {
            false
        }
    }

    /// Whether the 4 KiB frame at `table` is aligned and lies inside this memory.
    pub fn table_in_memory(&self, table: u64) -> (r: bool)
        requires
            self.wf(),
        ensures
            r == table_ok(self@, table),
    {
        table % 4096 == 0 && table <= (self.words.len() as u64) * 8 && 4096 <= (self.words.len() as u64) * 8 - table
    }

    /// Entry `idx` of the table at `table`.
    fn read_entry(&self, table: u64, idx: usize) -> (r: PageTableEntry)
        requires
            self.wf(),
            table_ok(self@, table),
            idx < 512,
        ensures
            r.0 == pte(self@, table, idx as int),
    {
        PageTableEntry(self.words[(table / 8) as usize + idx])
    }

    /// Store `value` as entry `idx` of the table at `table`.
    fn write_entry(&mut self, table: u64, idx: usize, value: u64)
        requires
            old(self).wf(),
            table_ok(old(self)@, table),
            idx < 512,
        ensures
            final(self).wf(),
            final(self)@ == old(self)@.update(entry_word(table, idx as int), value),
    {
        self.words.set((table / 8) as usize + idx, value);
    }

    /// Zero the 4 KiB frame at `table`.
    pub fn zero_table(&mut self, table: u64)
        requires
            old(self).wf(),
            table_ok(old(self)@, table),
        ensures
            final(self).wf(),
            final(self)@.len() == old(self)@.len(),
            forall|w: int| #![trigger final(self)@[w]] 0 <= w < old(self)@.len() ==> final(self)@[w] == if table / 8 <= w
                < table / 8 + 512 {
                0
            } else {
                old(self)@[w]
            },
    {
        let base = (table / 8) as usize;
        let mut i: usize = 0;
        while i < PAGE_TABLE_ENTRIES
            invariant
                self.wf(),
                base == table / 8,
                base + 512 <= self@.len(),
                self@.len() == old(self)@.len(),
                i <= 512,
                forall|w: int| #![trigger self@[w]] 0 <= w < self@.len() ==> self@[w] == if base <= w < base + i {
                    0
                } else {
                    old(self)@[w]
                },
            decreases 512 - i,
        {
            self.words.set(base + i, 0);
            i += 1;
        }
    }
}

/// Where a walk of the page tables for a virtual address ends.
pub enum WalkEnd {
    /// The entry at this level is not present.
    Absent(nat),
    /// The entry at this level maps the address: a 4 KiB entry at level 0,
    /// or a 2 MiB (level 1) or 1 GiB (level 2) entry when huge pages count.
    Leaf(nat, u64),
    /// A table on the way lies outside the identity-mapped memory.
    Unreachable,
}

/// Walk for `va` from the table at `table` of level `lvl` down to level 0;
/// with `huge`, a present entry with the huge-page bit at level 1 or 2 ends
/// the walk.
pub open spec fn walk(mem: Seq<u64>, table: u64, lvl: nat, va: u64, huge: bool) -> WalkEnd
    decreases lvl,
{
    if !table_ok(mem, table) {
        WalkEnd::Unreachable
    } else {
        let e = pte(mem, table, va_index(va, lvl) as int);
        if e & PageTableFlags::PRESENT == 0 {
            WalkEnd::Absent(lvl)
        } else if lvl == 0 || (huge && (lvl == 1 || lvl == 2) && e & PageTableFlags::HUGE_PAGE != 0) {
            WalkEnd::Leaf(lvl, e)
        } else {
            walk(mem, e & ADDR_MASK, (lvl - 1) as nat, va, huge)
        }
    }
}

/// A walk ends only at a present entry, and its flags keep the present
/// bit.
pub proof fn lemma_walk_leaf_present(mem: Seq<u64>, table: u64, lvl: nat, va: u64, huge: bool)
    ensures
        walk(mem, table, lvl, va, huge) matches WalkEnd::Leaf(l, e) ==> e & PageTableFlags::PRESENT != 0
            && (e & FLAGS_MASK) & PageTableFlags::PRESENT != 0,
    decreases lvl,
{
    if table_ok(mem, table) {
        let e = pte(mem, table, va_index(va, lvl) as int);
        if lvl > 0 {
            lemma_walk_leaf_present(mem, e & ADDR_MASK, (lvl - 1) as nat, va, huge);
        }
        assert(e & 1 != 0 ==> (e & 0x8000_0000_0000_0FFFu64) & 1 != 0) by (bit_vector);
    }
}

/// A walk ends at a leaf of level 0, or of level 1 or 2 when huge pages count.
pub proof fn lemma_walk_leaf_level(mem: Seq<u64>, table: u64, lvl: nat, va: u64, huge: bool)
    ensures
        walk(mem, table, lvl, va, huge) matches WalkEnd::Leaf(l, e) ==> l <= lvl && (l == 0 || (huge && (l == 1
            || l == 2))),
        walk(mem, table, lvl, va, huge) matches WalkEnd::Absent(l) ==> l <= lvl,
    decreases lvl,
{
    if lvl > 0 && table_ok(mem, table) {
        let e = pte(mem, table, va_index(va, lvl) as int);
        lemma_walk_leaf_level(mem, e & ADDR_MASK, (lvl - 1) as nat, va, huge);
    }
}

/// Physical address that leaf entry `e` of level `lvl` gives `va`.
pub open spec fn leaf_phys(lvl: nat, e: u64, va: u64) -> u64 {
    if lvl == 2 {
        ((e & ADDR_MASK) & !0x3FFF_FFFFu64) | (va & 0x3FFF_FFFF)
    } else if lvl == 1 {
        ((e & ADDR_MASK) & !0x1F_FFFFu64) | (va & 0x1F_FFFF)
    } else {
        (e & ADDR_MASK) | (va & 0xFFF)
    }
}

/// Bytes covered by a leaf entry of level `lvl`: 4 KiB, 2 MiB or 1 GiB.
pub open spec fn leaf_size(lvl: nat) -> int {
    if lvl == 2 {
        0x4000_0000
    } else if lvl == 1 {
        0x20_0000
    } else {
        0x1000
    }
}

/// Splicing the low bits `m` of `va` under the high bits of `base`, and
/// splitting a word at a mask.
proof fn lemma_splice_bits(base: u64, va: u64, x: u64, m: u64)
    by (bit_vector)
    requires
        m == 0xFFF || m == 0x1F_FFFF || m == 0x3FFF_FFFF,
    ensures
        ((base & !m) | (va & m)) & m == va & m,
        ((base & !m) | (va & m)) & !m == base & !m,
        (base & 0x000F_FFFF_FFFF_F000u64) & !0xFFFu64 == base & 0x000F_FFFF_FFFF_F000u64,
        (x & !m) + (x & m) == x,
{
}

/// `x & m` is `x` modulo the page size `m + 1` of a leaf level.
proof fn lemma_low_mask_mod(x: u64, m: u64)
    requires
        m == 0xFFF || m == 0x1F_FFFF || m == 0x3FFF_FFFF,
    ensures
        (x & m) as int == (x as int) % (m as int + 1),
{
    vstd::bits::lemma_low_bits_mask_values();
    vstd::arithmetic::power2::lemma2_to64();
    let n: nat = if m == 0xFFF {
        12
    } else if m == 0x1F_FFFF {
        21
    } else {
        30
    };
    vstd::bits::lemma_u64_low_bits_mask_is_mod(x, n);
}

/// A translation through a leaf entry keeps the address's offset within
/// the leaf's page (the low 12, 21 or 30 bits) and takes the page itself
/// from the entry's frame address: the result agrees with `va` modulo the
/// leaf size, and with the entry's address divided by it.
pub proof fn lemma_leaf_keeps_offset(lvl: nat, e: u64, va: u64)
    requires
        lvl <= 2,
    ensures
        (leaf_phys(lvl, e, va) as int) % leaf_size(lvl) == (va as int) % leaf_size(lvl),
        (leaf_phys(lvl, e, va) as int) / leaf_size(lvl) == ((e & ADDR_MASK) as int) / leaf_size(lvl),
{
    let b = e & ADDR_MASK;
    let m: u64 = (leaf_size(lvl) - 1) as u64;
    let s = leaf_phys(lvl, e, va);
    lemma_splice_bits(b, va, s, m);
    lemma_splice_bits(b, va, b, m);
    if lvl == 0 {
        lemma_splice_bits(e, va, s, m);
        assert(m == 0xFFF);
        assert(b & !m == b);
    }
    assert(s == (b & !m) | (va & m));
    lemma_low_mask_mod(s, m);
    lemma_low_mask_mod(va, m);
    lemma_low_mask_mod(b, m);
    let big: int = leaf_size(lvl);
    assert(m + 1 == big);
    vstd::arithmetic::div_mod::lemma_fundamental_div_mod(s as int, big);
    vstd::arithmetic::div_mod::lemma_fundamental_div_mod(b as int, big);
    assert(big * (s as int / big) == big * (b as int / big));
    assert(s as int / big == b as int / big) by (nonlinear_arith)
        requires
            big * (s as int / big) == big * (b as int / big),
            big > 0,
    ;
}

/// Error text for an absent entry at level `lvl`.
pub open spec fn not_mapped_msg(lvl: nat) -> Seq<char> {
    if lvl == 4 {
        "Page not mapped (PML5)"@
    } else if lvl == 3 {
        "Page not mapped (PML4)"@
    } else if lvl == 2 {
        "Page not mapped (PDPT)"@
    } else if lvl == 1 {
        "Page not mapped (PD)"@
    } else {
        "Page not mapped (PT)"@
    }
}

/// Error text for an address that is not canonical in `mode`.
pub open spec fn not_canonical_msg(mode: PagingMode) -> Seq<char> {
    match mode {
        PagingMode::FourLevel => "Virtual address not canonical for LA48"@,
        PagingMode::FiveLevel => "Virtual address not canonical for LA57"@,
    }
}

/// Error text for a table outside the identity-mapped memory.
pub open spec fn unreachable_msg() -> Seq<char> {
    "Page table not identity-mapped"@
}

/// The error text a walk that did not reach a leaf reports.
pub open spec fn walk_error_msg(w: WalkEnd) -> Seq<char> {
    match w {
        WalkEnd::Absent(l) => not_mapped_msg(l),
        _ => unreachable_msg(),
    }
}

fn not_mapped_error(lvl: usize) -> (r: &'static str)
    ensures
        r@ == not_mapped_msg(lvl as nat),
{
    if lvl == 4 {
        "Page not mapped (PML5)"
    } else if lvl == 3 {
        "Page not mapped (PML4)"
    } else if lvl == 2 {
        "Page not mapped (PDPT)"
    } else if lvl == 1 {
        "Page not mapped (PD)"
    } else {
        "Page not mapped (PT)"
    }
}

/// `None` when `va` is canonical in `mode`, else the error text.
fn canonical_error(va: VirtAddr, mode: PagingMode) -> (r: Option<&'static str>)
    ensures
        canonical(va.addr, mode) ==> r is None,
        !canonical(va.addr, mode) ==> (r matches Some(e) && e@ == not_canonical_msg(mode)),
{
    match mode {
        PagingMode::FourLevel => {
            if !va.is_canonical_la48() {
                return Some("Virtual address not canonical for LA48");
            }
        },
        PagingMode::FiveLevel => {
            if !va.is_canonical_la57() {
                return Some("Virtual address not canonical for LA57");
            }
        },
    }
    None
}

/// Index of `va` into a table of level `lvl`.
fn level_index(va: VirtAddr, lvl: usize) -> (r: usize)
    requires
        lvl <= 4,
    ensures
        r == va_index(va.addr, lvl as nat),
        r < 512,
{
    if lvl == 4 {
        va.pml5_index()
    } else if lvl == 3 {
        va.pml4_index()
    } else if lvl == 2 {
        va.pdpt_index()
    } else if lvl == 1 {
        va.pd_index()
    } else {
        va.pt_index()
    }
}

/// Index of the root level of a mode.
fn root_level(mode: PagingMode) -> (r: usize)
    ensures
        r == top_level(mode),
{
    match mode {
        PagingMode::FourLevel => 3,
        PagingMode::FiveLevel => 4,
    }
}

/// Walk for `va` from the root down, following huge pages when `huge`;
/// returns the level and value of the leaf entry, or the error text.
fn walk_tables(manager: &PagingManager, mem: &PhysMemory, va: VirtAddr, huge: bool) -> (r: Result<(usize, u64, u64), &'static str>)
    requires
        mem.wf(),
    ensures
        match walk(mem@, manager.root_spec(), top_level(manager.mode_spec()), va.addr, huge) {
            WalkEnd::Leaf(l, e) => r matches Ok((l2, e2, _)) && l2 == l && e2 == e,
            w => r matches Err(s) && s@ == walk_error_msg(w),
        },
        !huge ==> (r matches Ok((_, _, t)) ==> t == walk_path(mem@, manager.root_spec(), top_level(manager.mode_spec()), va.addr).last()
            && walk_path(mem@, manager.root_spec(), top_level(manager.mode_spec()), va.addr).len() == top_level(manager.mode_spec()) + 1),
{
    let mut table = manager.root_table_phys();
    let mut lvl = root_level(manager.mode());
    let ghost root = manager.root_spec();
    let ghost top = top_level(manager.mode_spec());
    let ghost mut prefix: Seq<u64> = Seq::empty();
    loop
        invariant
            mem.wf(),
            lvl <= 4,
            lvl <= top,
            root == manager.root_spec(),
            top == top_level(manager.mode_spec()),
            walk(mem@, root, top, va.addr, huge) == walk(mem@, table, lvl as nat, va.addr, huge),
            prefix.len() == top - lvl,
            walk_path(mem@, root, top, va.addr) =~= prefix + walk_path(mem@, table, lvl as nat, va.addr),
        decreases lvl,
    {
        if !mem.table_in_memory(table) {
            return Err("Page table not identity-mapped");
        }
        let entry = mem.read_entry(table, level_index(va, lvl));
        if !entry.is_present() {
            return Err(not_mapped_error(lvl));
        }
        if lvl == 0 || (huge && (lvl == 1 || lvl == 2) && entry.is_huge()) {
            return Ok((lvl, entry.raw(), table));
        }
        proof {
            prefix = prefix.push(table);
        }
        table = entry.address();
        lvl -= 1;
    }
}

/// The physical address `virt_addr` is mapped to, following 2 MiB and 1 GiB
/// pages.
pub fn translate_address(manager: &PagingManager, mem: &PhysMemory, virt_addr: VirtAddr) -> (r: Result<PhysAddr, &'static str>)
    requires
        mem.wf(),
    ensures
        !canonical(virt_addr.addr, manager.mode_spec()) ==> (r matches Err(e) && e@ == not_canonical_msg(
            manager.mode_spec(),
        )),
        canonical(virt_addr.addr, manager.mode_spec()) ==> match walk(
            mem@,
            manager.root_spec(),
            top_level(manager.mode_spec()),
            virt_addr.addr,
            true,
        ) {
            WalkEnd::Leaf(l, e) => r == Ok::<PhysAddr, &'static str>(PhysAddr(leaf_phys(l, e, virt_addr.addr))),
            w => r matches Err(s) && s@ == walk_error_msg(w),
        },
{
    if let Some(e) = canonical_error(virt_addr, manager.mode()) {
        return Err(e);
    }
    proof {
        lemma_walk_leaf_level(mem@, manager.root_spec(), top_level(manager.mode_spec()), virt_addr.addr, true);
    }
    match walk_tables(manager, mem, virt_addr, true) {
        Ok((lvl, raw, _)) => {
            let entry = PageTableEntry(raw);
            if lvl == 2 {
                let base = entry.address() & !0x3FFF_FFFFu64;
                let offset = virt_addr.as_u64() & 0x3FFF_FFFF;
                Ok(PhysAddr::new(base | offset))
            } else if lvl == 1 {
                let base = entry.address() & !0x1F_FFFFu64;
                let offset = virt_addr.as_u64() & 0x1F_FFFF;
                Ok(PhysAddr::new(base | offset))
            } else {
                let base = entry.address();
                let offset = virt_addr.page_offset() as u64;
                Ok(PhysAddr::new(base | offset))
            }
        },
        Err(e) => Err(e),
    }
}

/// The flags (low 12 bits and no-execute) of the entry that maps
/// `virt_addr`, following 2 MiB and 1 GiB pages; they always hold the
/// present bit.
pub fn get_page_flags(manager: &PagingManager, mem: &PhysMemory, virt_addr: VirtAddr) -> (r: Result<PageTableFlags, &'static str>)
    requires
        mem.wf(),
    ensures
        !canonical(virt_addr.addr, manager.mode_spec()) ==> (r matches Err(e) && e@ == not_canonical_msg(
            manager.mode_spec(),
        )),
        canonical(virt_addr.addr, manager.mode_spec()) ==> match walk(
            mem@,
            manager.root_spec(),
            top_level(manager.mode_spec()),
            virt_addr.addr,
            true,
        ) {
            WalkEnd::Leaf(l, e) => r == Ok::<PageTableFlags, &'static str>(PageTableFlags(e & FLAGS_MASK)),
            w => r matches Err(s) && s@ == walk_error_msg(w),
        },
        r matches Ok(g) ==> g.0 & PageTableFlags::PRESENT != 0,
{
    proof {
        lemma_walk_leaf_present(mem@, manager.root_spec(), top_level(manager.mode_spec()), virt_addr.addr, true);
    }
    if let Some(e) = canonical_error(virt_addr, manager.mode()) {
        return Err(e);
    }
    match walk_tables(manager, mem, virt_addr, true) {
        Ok((_lvl, raw, _)) => Ok(PageTableEntry(raw).flags()),
        Err(e) => Err(e),
    }
}

/// `new` differs from `old` only by frames it allocated: every frame used
/// before is still used, and the size, NUMA data and exactness of the counter
/// are kept.
pub open spec fn pmm_grew(old: &PhysicalMemoryManager, new: &PhysicalMemoryManager) -> bool {
    &&& new.wf()
    &&& old.same_layout(new)
    &&& forall|g: int| #[trigger] old.used(g) ==> new.used(g)
    &&& old.counter_exact() ==> new.counter_exact()
}

/// Frame `f` was free in `old` and is used in `new`.
pub open spec fn newly_used(old: &PhysicalMemoryManager, new: &PhysicalMemoryManager, f: int) -> bool {
    !old.used(f) && new.used(f)
}

/// Error text when no frame can be allocated for a table.
pub open spec fn alloc_failed_msg() -> Seq<char> {
    "Failed to allocate page table frame"@
}

/// Error text when the frame allocated for a table is not identity-mapped.
pub open spec fn table_frame_unmapped_msg() -> Seq<char> {
    "Page table frame not identity-mapped (<4 GiB required)"@
}

/// Allocate a zeroed frame for a page table, preferring frames below 4 GiB;
/// an allocator result of address 0 counts as failure.
fn alloc_page_table(mem: &mut PhysMemory, pmm: &mut PhysicalMemoryManager) -> (r: Result<u64, &'static str>)
    requires
        old(mem).wf(),
        old(pmm).wf(),
    ensures
        final(mem).wf(),
        final(mem)@.len() == old(mem)@.len(),
        pmm_grew(old(pmm), final(pmm)),
        forall|w: int|
            0 <= w < old(mem)@.len() && #[trigger] final(mem)@[w] != old(mem)@[w] ==> newly_used(
                old(pmm),
                final(pmm),
                w / 512,
            ),
        r matches Ok(a) ==> {
            &&& table_ok(final(mem)@, a)
            &&& newly_used(old(pmm), final(pmm), a as int / 4096)
            &&& forall|i: int| 0 <= i < 512 ==> #[trigger] pte(final(mem)@, a, i) == 0
        },
        r matches Err(s) ==> s@ == alloc_failed_msg() || s@ == table_frame_unmapped_msg(),
        old(pmm).used(0) ==> final(pmm).free_counter() + 1 >= old(pmm).free_counter(),
        old(pmm).free_counter() > 0 && old(pmm).used(0) && 4096 * old(pmm).total() <= 8 * old(mem)@.len()
            ==> r is Ok,
{
    proof {
        lemma_wf_exact(*pmm);
    }
    proof {
        lemma_exact_counter_zone_pre(pmm, MemoryZone::Dma);
        lemma_exact_counter_zone_pre(pmm, MemoryZone::Dma32);
        lemma_exact_counter_has_free(pmm);
    }
    let ghost p0 = *pmm;
    let mut addr: u64 = match pmm.alloc_dma32_frame() {
        Ok(a) => a,
        Err(_) => 0,
    };
    if addr == 0 {
        let ghost p1 = *pmm;
        proof {
            lemma_exact_counter_has_free(pmm);
        }
        addr = match pmm.alloc_frame() {
            Ok(a) => a,
            Err(_) => 0,
        };
    }
    if addr == 0 {
        return Err("Failed to allocate page table frame");
    }
    if !mem.table_in_memory(addr) {
        return Err("Page table frame not identity-mapped (<4 GiB required)");
    }
    mem.zero_table(addr);
    Ok(addr)
}

/// Tables a walk for `va` passes through (huge pages not counted), from the
/// table at `table` of level `lvl` to the table where it stops.
pub open spec fn walk_path(mem: Seq<u64>, table: u64, lvl: nat, va: u64) -> Seq<u64>
    decreases lvl,
{
    if lvl > 0 && table_ok(mem, table) && pte(mem, table, va_index(va, lvl) as int) & PageTableFlags::PRESENT != 0 {
        seq![table] + walk_path(mem, pte(mem, table, va_index(va, lvl) as int) & ADDR_MASK, (lvl - 1) as nat, va)
    } else {
        seq![table]
    }
}

/// The tables of a walk's path are in use by the allocator and distinct.
pub open spec fn path_ok(mem: Seq<u64>, pmm: &PhysicalMemoryManager, table: u64, lvl: nat, va: u64) -> bool {
    let p = walk_path(mem, table, lvl, va);
    &&& forall|i: int| 0 <= i < p.len() ==> #[trigger] pmm.used(p[i] as int / 4096)
    &&& forall|i: int, j: int| 0 <= i < j < p.len() ==> #[trigger] p[i] != #[trigger] p[j]
}

/// No present entry on a walk's path at level 1 or 2 has the huge-page bit.
pub open spec fn no_huge_path(mem: Seq<u64>, table: u64, lvl: nat, va: u64) -> bool {
    let p = walk_path(mem, table, lvl, va);
    forall|k: int|
        0 <= k < p.len() - 1 && (lvl - k == 1 || lvl - k == 2) ==> pte(
            mem,
            #[trigger] p[k],
            va_index(va, (lvl - k) as nat) as int,
        ) & PageTableFlags::HUGE_PAGE == 0
}

/// `tables` is a chain for `va` from level `top` down: each table but the
/// last lies in memory, and its entry for `va` is present and points at the
/// next table.
pub open spec fn chain(mem: Seq<u64>, tables: Seq<u64>, top: nat, va: u64) -> bool {
    forall|k: int|
        0 <= k < tables.len() - 1 ==> {
            &&& table_ok(mem, #[trigger] tables[k])
            &&& pte(mem, tables[k], va_index(va, (top - k) as nat) as int) & PageTableFlags::PRESENT != 0
            &&& pte(mem, tables[k], va_index(va, (top - k) as nat) as int) & ADDR_MASK == tables[k + 1]
        }
}

/// No link of a chain at level 1 or 2 has the huge-page bit.
pub open spec fn chain_no_huge(mem: Seq<u64>, tables: Seq<u64>, top: nat, va: u64) -> bool {
    forall|k: int|
        0 <= k < tables.len() - 1 && (top - k == 1 || top - k == 2) ==> pte(
            mem,
            #[trigger] tables[k],
            va_index(va, (top - k) as nat) as int,
        ) & PageTableFlags::HUGE_PAGE == 0
}

/// What a walk reads at level 0 when the last-level entry holds `e`.
pub open spec fn pt_end(e: u64) -> WalkEnd {
    if e & PageTableFlags::PRESENT == 0 {
        WalkEnd::Absent(0)
    } else {
        WalkEnd::Leaf(0, e)
    }
}

/// A walk along a chain reaches the chain's last table.
pub proof fn lemma_chain_walk(mem: Seq<u64>, tables: Seq<u64>, top: nat, va: u64, huge: bool, k: int)
    requires
        chain(mem, tables, top, va),
        huge ==> chain_no_huge(mem, tables, top, va),
        1 <= tables.len() <= top + 1,
        0 <= k < tables.len(),
    ensures
        walk(mem, tables[k], (top - k) as nat, va, huge) == walk(
            mem,
            tables.last(),
            (top + 1 - tables.len()) as nat,
            va,
            huge,
        ),
    decreases tables.len() - k,
{
    if k < tables.len() - 1 {
        assert(table_ok(mem, tables[k]));
        lemma_chain_walk(mem, tables, top, va, huge, k + 1);
    }
}

/// A walk's path is a chain, starts at the walk's table, and the walk from
/// its last table is the walk from the first.
pub proof fn lemma_walk_path(mem: Seq<u64>, table: u64, lvl: nat, va: u64)
    ensures
        walk_path(mem, table, lvl, va).len() >= 1,
        walk_path(mem, table, lvl, va).len() <= lvl + 1,
        walk_path(mem, table, lvl, va)[0] == table,
        chain(mem, walk_path(mem, table, lvl, va), lvl, va),
    decreases lvl,
{
    let p = walk_path(mem, table, lvl, va);
    if lvl > 0 && table_ok(mem, table) && pte(mem, table, va_index(va, lvl) as int) & PageTableFlags::PRESENT != 0 {
        let next = pte(mem, table, va_index(va, lvl) as int) & ADDR_MASK;
        lemma_walk_path(mem, next, (lvl - 1) as nat, va);
        let q = walk_path(mem, next, (lvl - 1) as nat, va);
        assert forall|k: int| 0 <= k < p.len() - 1 implies {
            &&& table_ok(mem, #[trigger] p[k])
            &&& pte(mem, p[k], va_index(va, (lvl - k) as nat) as int) & PageTableFlags::PRESENT != 0
            &&& pte(mem, p[k], va_index(va, (lvl - k) as nat) as int) & ADDR_MASK == p[k + 1]
        } by {
            if k > 0 {
                assert(p[k] == q[k - 1]);
                assert(p[k + 1] == q[k]);
                assert((lvl - 1 - (k - 1)) as nat == (lvl - k) as nat);
            }
        }
    }
}

/// Table indices are below 512.
pub proof fn lemma_va_index_bound(va: u64, lvl: nat)
    ensures
        va_index(va, lvl) < 512,
{
    lemma_va_bits(va);
}

/// The nine-bit index fields and the page offset of an address are in
/// range.
pub proof fn lemma_va_bits(va: u64)
    by (bit_vector)
    ensures
        (va >> 48u64) & 0x1FF < 512,
        (va >> 39u64) & 0x1FF < 512,
        (va >> 30u64) & 0x1FF < 512,
        (va >> 21u64) & 0x1FF < 512,
        (va >> 12u64) & 0x1FF < 512,
        va & 0xFFF < 4096,
{
}

/// Page alignment by masking agrees with arithmetic.
pub proof fn lemma_page_mask(a: u64)
    by (bit_vector)
    ensures
        (a & 0xFFF == 0) == (a % 4096 == 0),
        a & !0xFFFu64 == a - a % 4096,
{
}

/// Zero masks to zero.
pub proof fn lemma_zero_and(x: u64)
    by (bit_vector)
    ensures
        0u64 & x == 0,
{
}

/// Allocating in two steps is allocating.
pub proof fn lemma_pmm_grew_trans(a: &PhysicalMemoryManager, b: &PhysicalMemoryManager, c: &PhysicalMemoryManager)
    requires
        pmm_grew(a, b),
        pmm_grew(b, c),
    ensures
        pmm_grew(a, c),
{
    assert forall|i: int| 0 <= i < 8 implies #[trigger] c.numa(i) == a.numa(i) by {
        assert(c.numa(i) == b.numa(i));
    }
}

/// Two entries of distinct aligned tables are distinct words.
proof fn lemma_entry_words_distinct(a: u64, b: u64, i: int, j: int)
    requires
        a % 4096 == 0,
        b % 4096 == 0,
        a != b,
        0 <= i < 512,
        0 <= j < 512,
    ensures
        entry_word(a, i) != entry_word(b, j),
{
}

/// An entry of an aligned table lies in that table's frame.
proof fn lemma_entry_word_frame(a: u64, i: int)
    requires
        a % 4096 == 0,
        0 <= i < 512,
    ensures
        entry_word(a, i) / 512 == a / 4096,
{
}

/// An entry pointing at an aligned table below 4 GiB is present, holds that
/// address, and has no huge-page bit when its flags have none.
proof fn lemma_table_entry_value(addr: u64, flags: u64)
    requires
        addr % 4096 == 0,
        addr < IDENTITY_MAP_LIMIT,
        flags & PageTableFlags::PRESENT != 0,
        flags < 8,
    ensures
        entry_value(addr, flags) & PageTableFlags::PRESENT != 0,
        entry_value(addr, flags) & ADDR_MASK == addr,
        entry_value(addr, flags) & PageTableFlags::HUGE_PAGE == 0,
{
    assert(((addr & 0x000F_FFFF_FFFF_F000u64) | flags) & 1 != 0) by (bit_vector)
        requires
            flags & 1 != 0,
    ;
    assert(((addr & 0x000F_FFFF_FFFF_F000u64) | flags) & 0x000F_FFFF_FFFF_F000u64 == addr) by (bit_vector)
        requires
            addr % 4096 == 0,
            addr < 0x1_0000_0000,
            flags < 8,
    ;
    assert(((addr & 0x000F_FFFF_FFFF_F000u64) | flags) & 0x80 == 0) by (bit_vector)
        requires
            addr % 4096 == 0,
            flags < 8,
    ;
}

/// Error text for an unaligned physical address.
pub open spec fn not_aligned_msg() -> Seq<char> {
    "Physical address not page-aligned"@
}

/// Outside the frames `pmm1` allocated since `pmm0`, memory `mem1` differs
/// from `mem0` at most at word `w0`.
pub open spec fn changed_only(
    mem0: Seq<u64>,
    pmm0: &PhysicalMemoryManager,
    mem1: Seq<u64>,
    pmm1: &PhysicalMemoryManager,
    w0: int,
) -> bool {
    &&& mem1.len() == mem0.len()
    &&& forall|w: int|
        0 <= w < mem0.len() && #[trigger] mem1[w] != mem0[w] ==> newly_used(pmm0, pmm1, w / 512) || w == w0
}

/// Outcome of `map_page(va -> pa, flags)` from memory `mem0` and allocator
/// `pmm0` to `mem1` and `pmm1`.
pub open spec fn map_post(
    manager: &PagingManager,
    mem0: Seq<u64>,
    pmm0: &PhysicalMemoryManager,
    mem1: Seq<u64>,
    pmm1: &PhysicalMemoryManager,
    va: u64,
    pa: u64,
    flags: u64,
    r: Result<(), &'static str>,
) -> bool {
    let root = manager.root_spec();
    let mode = manager.mode_spec();
    let top = top_level(mode);
    let path = walk_path(mem0, root, top, va);
    let w0 = entry_word(path.last(), va_index(va, (top + 1 - path.len()) as nat) as int);
    &&& pmm_grew(pmm0, pmm1)
    &&& changed_only(mem0, pmm0, mem1, pmm1, w0)
    &&& pa % 4096 != 0 ==> (r matches Err(s) && s@ == not_aligned_msg()) && mem1 == mem0 && *pmm1 == *pmm0
    &&& pa % 4096 == 0 && !canonical(va, mode) ==> (r matches Err(s) && s@ == not_canonical_msg(mode)) && mem1
        == mem0 && *pmm1 == *pmm0
    &&& pa % 4096 == 0 && canonical(va, mode) ==> match walk(mem0, root, top, va, false) {
        WalkEnd::Unreachable => (r matches Err(s) && s@ == unreachable_msg()) && mem1 == mem0 && *pmm1 == *pmm0,
        WalkEnd::Leaf(_, _) => r is Ok && mem1 == mem0.update(w0, entry_value(pa, flags)) && *pmm1 == *pmm0,
        WalkEnd::Absent(l) => {
            &&& r is Ok || (r matches Err(s) && (s@ == alloc_failed_msg() || s@ == table_frame_unmapped_msg()))
            &&& l == 0 ==> r is Ok && mem1 == mem0.update(w0, entry_value(pa, flags)) && *pmm1 == *pmm0
            &&& path_ok(mem0, pmm0, root, top, va) && pmm0.used(0) && pmm0.free_counter() >= l && 4096
                * pmm0.total() <= 8 * mem0.len() ==> r is Ok
        },
    }
    &&& r is Ok && path_ok(mem0, pmm0, root, top, va) ==> walk(mem1, root, top, va, false) == pt_end(
        entry_value(pa, flags),
    )
    &&& r is Ok && path_ok(mem0, pmm0, root, top, va) && no_huge_path(mem0, root, top, va) ==> walk(
        mem1,
        root,
        top,
        va,
        true,
    ) == walk(mem1, root, top, va, false)
}

/// Writes that touch only frames allocated since `pmm_a`, and word `wx`
/// which is no link of the chain, keep a chain whose tables `pmm_a` uses.
proof fn lemma_chain_frame(
    mem_a: Seq<u64>,
    mem_b: Seq<u64>,
    pmm_a: &PhysicalMemoryManager,
    pmm_b: &PhysicalMemoryManager,
    tables: Seq<u64>,
    top: nat,
    va: u64,
    wx: int,
)
    requires
        chain(mem_a, tables, top, va),
        mem_b.len() == mem_a.len(),
        forall|k: int| 0 <= k < tables.len() ==> #[trigger] pmm_a.used(tables[k] as int / 4096),
        forall|w: int|
            0 <= w < mem_a.len() && #[trigger] mem_b[w] != mem_a[w] ==> newly_used(pmm_a, pmm_b, w / 512) || w == wx,
        forall|k: int|
            0 <= k < tables.len() - 1 ==> entry_word(#[trigger] tables[k], va_index(va, (top - k) as nat) as int) != wx,
    ensures
        chain(mem_b, tables, top, va),
        chain_no_huge(mem_a, tables, top, va) ==> chain_no_huge(mem_b, tables, top, va),
{
    assert forall|k: int| 0 <= k < tables.len() - 1 implies pte(mem_b, #[trigger] tables[k], va_index(va, (top - k) as nat) as int)
        == pte(mem_a, tables[k], va_index(va, (top - k) as nat) as int) by {
        assert(table_ok(mem_a, tables[k]));
        lemma_va_index_bound(va, (top - k) as nat);
        lemma_entry_word_frame(tables[k], va_index(va, (top - k) as nat) as int);
        assert(pmm_a.used(tables[k] as int / 4096));
    }
}

/// Extending a chain by the table its last entry points at.
proof fn lemma_chain_push(mem: Seq<u64>, tables: Seq<u64>, top: nat, va: u64, next: u64)
    requires
        chain(mem, tables, top, va),
        tables.len() >= 1,
        table_ok(mem, tables.last()),
        pte(mem, tables.last(), va_index(va, (top - (tables.len() - 1)) as nat) as int) & PageTableFlags::PRESENT != 0,
        pte(mem, tables.last(), va_index(va, (top - (tables.len() - 1)) as nat) as int) & ADDR_MASK == next,
    ensures
        chain(mem, tables.push(next), top, va),
        chain_no_huge(mem, tables, top, va) && (top - (tables.len() - 1) == 1 || top - (tables.len() - 1) == 2
            ==> pte(mem, tables.last(), va_index(va, (top - (tables.len() - 1)) as nat) as int)
            & PageTableFlags::HUGE_PAGE == 0) ==> chain_no_huge(mem, tables.push(next), top, va),
{
    let t2 = tables.push(next);
    assert forall|k: int| 0 <= k < t2.len() - 1 implies {
        &&& table_ok(mem, #[trigger] t2[k])
        &&& pte(mem, t2[k], va_index(va, (top - k) as nat) as int) & PageTableFlags::PRESENT != 0
        &&& pte(mem, t2[k], va_index(va, (top - k) as nat) as int) & ADDR_MASK == t2[k + 1]
    } by {
        if k < tables.len() - 1 {
            assert(t2[k] == tables[k] && t2[k + 1] == tables[k + 1]);
        }
    }
    if chain_no_huge(mem, tables, top, va) && (top - (tables.len() - 1) == 1 || top - (tables.len() - 1) == 2
        ==> pte(mem, tables.last(), va_index(va, (top - (tables.len() - 1)) as nat) as int)
        & PageTableFlags::HUGE_PAGE == 0) {
        assert forall|k: int| 0 <= k < t2.len() - 1 && (top - k == 1 || top - k == 2) implies pte(
            mem,
            #[trigger] t2[k],
            va_index(va, (top - k) as nat) as int,
        ) & PageTableFlags::HUGE_PAGE == 0 by {
            if k < tables.len() - 1 {
                assert(t2[k] == tables[k]);
            }
        }
    }
}

/// A prefix of a walk's path inherits the path's properties.
proof fn lemma_path_prefix(
    mem: Seq<u64>,
    pmm: &PhysicalMemoryManager,
    root: u64,
    top: nat,
    va: u64,
    prefix: Seq<u64>,
)
    requires
        path_ok(mem, pmm, root, top, va),
        prefix.len() <= walk_path(mem, root, top, va).len(),
        prefix =~= walk_path(mem, root, top, va).take(prefix.len() as int),
        chain(mem, walk_path(mem, root, top, va), top, va),
    ensures
        chain(mem, prefix, top, va),
        forall|k: int| 0 <= k < prefix.len() ==> #[trigger] pmm.used(prefix[k] as int / 4096),
        forall|i: int, j: int| 0 <= i < j < prefix.len() ==> #[trigger] prefix[i] != #[trigger] prefix[j],
        no_huge_path(mem, root, top, va) ==> chain_no_huge(mem, prefix, top, va),
{
    let p = walk_path(mem, root, top, va);
    assert forall|k: int| 0 <= k < prefix.len() - 1 implies {
        &&& table_ok(mem, #[trigger] prefix[k])
        &&& pte(mem, prefix[k], va_index(va, (top - k) as nat) as int) & PageTableFlags::PRESENT != 0
        &&& pte(mem, prefix[k], va_index(va, (top - k) as nat) as int) & ADDR_MASK == prefix[k + 1]
    } by {
        assert(prefix[k] == p[k] && prefix[k + 1] == p[k + 1]);
    }
    assert forall|k: int| 0 <= k < prefix.len() implies #[trigger] pmm.used(prefix[k] as int / 4096) by {
        assert(prefix[k] == p[k]);
    }
    assert forall|i: int, j: int| 0 <= i < j < prefix.len() implies #[trigger] prefix[i] != #[trigger] prefix[j] by {
        assert(prefix[i] == p[i] && prefix[j] == p[j]);
    }
    if no_huge_path(mem, root, top, va) {
        assert forall|k: int| 0 <= k < prefix.len() - 1 && (top - k == 1 || top - k == 2) implies pte(
            mem,
            #[trigger] prefix[k],
            va_index(va, (top - k) as nat) as int,
        ) & PageTableFlags::HUGE_PAGE == 0 by {
            assert(prefix[k] == p[k]);
        }
    }
}

/// Appending a newly allocated table keeps the tables used and distinct.
proof fn lemma_push_new_table(
    tables: Seq<u64>,
    pmm_a: &PhysicalMemoryManager,
    pmm_b: &PhysicalMemoryManager,
    next: u64,
)
    requires
        forall|k: int| 0 <= k < tables.len() ==> #[trigger] pmm_a.used(tables[k] as int / 4096),
        forall|i: int, j: int| 0 <= i < j < tables.len() ==> #[trigger] tables[i] != #[trigger] tables[j],
        newly_used(pmm_a, pmm_b, next as int / 4096),
        forall|g: int| #[trigger] pmm_a.used(g) ==> pmm_b.used(g),
    ensures
        forall|k: int| 0 <= k < tables.len() + 1 ==> #[trigger] pmm_b.used(tables.push(next)[k] as int / 4096),
        forall|i: int, j: int|
            0 <= i < j < tables.len() + 1 ==> #[trigger] tables.push(next)[i] != #[trigger] tables.push(next)[j],
{
    let t2 = tables.push(next);
    assert forall|k: int| 0 <= k < tables.len() + 1 implies #[trigger] pmm_b.used(t2[k] as int / 4096) by {
        if k < tables.len() {
            assert(pmm_a.used(tables[k] as int / 4096));
        }
    }
    assert forall|i: int, j: int| 0 <= i < j < tables.len() + 1 implies #[trigger] t2[i] != #[trigger] t2[j] by {
        if j == tables.len() {
            assert(pmm_a.used(tables[i] as int / 4096));
        } else {
            assert(t2[i] == tables[i] && t2[j] == tables[j]);
        }
    }
}

/// Follow the entry `idx` of the table at `table` to the next-level table,
/// creating that table (present, writable, and `table_flags`) from a frame of
/// `pmm` when the entry is not present.
fn get_or_create_next_level(
    mem: &mut PhysMemory,
    pmm: &mut PhysicalMemoryManager,
    table: u64,
    idx: usize,
    table_flags: PageTableFlags,
) -> (r: Result<u64, &'static str>)
    requires
        old(mem).wf(),
        old(pmm).wf(),
        table_ok(old(mem)@, table),
        idx < 512,
        table_flags.0 & PageTableFlags::PRESENT != 0,
        table_flags.0 < 8,
    ensures
        final(mem).wf(),
        final(mem)@.len() == old(mem)@.len(),
        final(pmm).counter_exact(),
        pmm_grew(old(pmm), final(pmm)),
        pte(old(mem)@, table, idx as int) & PageTableFlags::PRESENT != 0 ==> r == Ok::<u64, &'static str>(
            pte(old(mem)@, table, idx as int) & ADDR_MASK,
        ) && final(mem)@ == old(mem)@ && *final(pmm) == *old(pmm),
        pte(old(mem)@, table, idx as int) & PageTableFlags::PRESENT == 0 ==> {
            &&& forall|w: int|
                0 <= w < old(mem)@.len() && #[trigger] final(mem)@[w] != old(mem)@[w] ==> newly_used(
                    old(pmm),
                    final(pmm),
                    w / 512,
                ) || (r is Ok && w == entry_word(table, idx as int))
            &&& r matches Err(s) ==> s@ == alloc_failed_msg() || s@ == table_frame_unmapped_msg()
            &&& r matches Ok(n) ==> {
                &&& table_ok(final(mem)@, n)
                &&& newly_used(old(pmm), final(pmm), n as int / 4096)
                &&& pte(final(mem)@, table, idx as int) & PageTableFlags::PRESENT != 0
                &&& pte(final(mem)@, table, idx as int) & ADDR_MASK == n
                &&& pte(final(mem)@, table, idx as int) & PageTableFlags::HUGE_PAGE == 0
                &&& forall|i: int|
                    0 <= i < 512 && #[trigger] pte(final(mem)@, n, i) & PageTableFlags::PRESENT != 0 ==> pte(
                        final(mem)@,
                        n,
                        i,
                    ) & ADDR_MASK == n
                &&& n != table ==> forall|i: int| 0 <= i < 512 ==> #[trigger] pte(final(mem)@, n, i) == 0
            }
            &&& old(pmm).free_counter() > 0 && old(pmm).used(0) && 4096 * old(pmm).total() <= 8 * old(mem)@.len()
                ==> r is Ok
            &&& old(pmm).used(0) ==> final(pmm).free_counter() + 1 >= old(pmm).free_counter()
        },
{
    proof {
        lemma_wf_exact(*pmm);
    }
    let entry = mem.read_entry(table, idx);
    if entry.is_present() {
        return Ok(entry.address());
    }
    let ghost mem_before = mem@;
    let new_table_addr = match alloc_page_table(mem, pmm) {
        Ok(a) => a,
        Err(e) => {
            return Err(e);
        },
    };
    let ghost mem_alloc = mem@;
    proof {
        assert(new_table_addr < IDENTITY_MAP_LIMIT);
        lemma_table_entry_value(new_table_addr, table_flags.0);
    }
    let mut new_entry = PageTableEntry::new();
    new_entry.set(new_table_addr, table_flags);
    mem.write_entry(table, idx, new_entry.raw());
    proof {
        lemma_entry_word_frame(table, idx as int);
        assert forall|i: int|
            0 <= i < 512 && #[trigger] pte(mem@, new_table_addr, i) & PageTableFlags::PRESENT != 0 implies pte(
            mem@,
            new_table_addr,
            i,
        ) & ADDR_MASK == new_table_addr by {
            if entry_word(new_table_addr, i) != entry_word(table, idx as int) {
                assert(pte(mem_alloc, new_table_addr, i) == 0);
                lemma_zero_and(1u64);
            }
        }
        if new_table_addr != table {
            assert forall|i: int| 0 <= i < 512 implies #[trigger] pte(mem@, new_table_addr, i) == 0 by {
                lemma_entry_words_distinct(new_table_addr, table, i, idx as int);
                assert(pte(mem_alloc, new_table_addr, i) == 0);
            }
        }
    }
    Ok(new_table_addr)
}

/// Map the 4 KiB page at `virt_addr` to `phys_addr` with `flags`, creating
/// the missing intermediate tables (present, writable, and user when `flags`
/// has the user bit) from frames of `pmm`.
#[verifier::rlimit(100)]
#[verifier::spinoff_prover]
pub fn map_page(
    manager: &PagingManager,
    mem: &mut PhysMemory,
    pmm: &mut PhysicalMemoryManager,
    virt_addr: VirtAddr,
    phys_addr: PhysAddr,
    flags: PageTableFlags,
) -> (r: Result<(), &'static str>)
    requires
        old(mem).wf(),
        old(pmm).wf(),
    ensures
        final(mem).wf(),
        final(pmm).counter_exact(),
        map_post(manager, old(mem)@, old(pmm), final(mem)@, final(pmm), virt_addr.addr, phys_addr.0, flags.0, r),
{
    proof {
        lemma_wf_exact(*pmm);
    }
    let ghost mem0 = mem@;
    let ghost pmm0 = *pmm;
    let ghost va = virt_addr.addr;
    let ghost root = manager.root_spec();
    let ghost top = top_level(manager.mode_spec());
    let ghost path = walk_path(mem0, root, top, va);
    let ghost ok = path_ok(mem0, &pmm0, root, top, va);
    let ghost nh = no_huge_path(mem0, root, top, va);
    let ghost w0 = entry_word(path.last(), va_index(va, (top + 1 - path.len()) as nat) as int);
    let ghost enough = pmm0.used(0) && 4096 * pmm0.total() <= 8 * mem0.len() && path_ok(mem0, &pmm0, root, top, va)
        && (walk(mem0, root, top, va, false) matches WalkEnd::Absent(l) ==> pmm0.free_counter() >= l);
    proof {
        lemma_walk_path(mem0, root, top, va);
    }
    if !phys_addr.is_aligned() {
        return Err("Physical address not page-aligned");
    }
    if let Some(e) = canonical_error(virt_addr, manager.mode()) {
        return Err(e);
    }
    let mut table_flags = PageTableFlags::new();
    table_flags.set(PageTableFlags::PRESENT);
    table_flags.set(PageTableFlags::WRITABLE);
    if flags.contains(PageTableFlags::USER) {
        table_flags.set(PageTableFlags::USER);
    }
    proof {
        let tf = table_flags.0;
        assert(tf & 1 != 0 && tf < 8) by (bit_vector)
            requires
                tf == (0u64 | 1u64 | 2u64) || tf == ((0u64 | 1u64 | 2u64) | 4u64),
        ;
    }
    let mut table = manager.root_table_phys();
    let mut lvl = root_level(manager.mode());
    let ghost mut visited: Seq<u64> = seq![table];
    let ghost mut fresh = false;
    while lvl > 0
        invariant
            mem.wf(),
            pmm.wf(),
            pmm.counter_exact(),
            mem@.len() == mem0.len(),
            mem0 == old(mem)@,
            pmm0 == *old(pmm),
            phys_addr.0 % 4096 == 0,
            canonical(virt_addr.addr, manager.mode_spec()),
            pmm_grew(&pmm0, pmm),
            va == virt_addr.addr,
            root == manager.root_spec(),
            top == top_level(manager.mode_spec()),
            path == walk_path(mem0, root, top, va),
            ok == path_ok(mem0, &pmm0, root, top, va),
            nh == no_huge_path(mem0, root, top, va),
            w0 == entry_word(path.last(), va_index(va, (top + 1 - path.len()) as nat) as int),
            enough == (pmm0.used(0) && 4096 * pmm0.total() <= 8 * mem0.len() && path_ok(mem0, &pmm0, root, top, va)
                && (walk(mem0, root, top, va, false) matches WalkEnd::Absent(l) ==> pmm0.free_counter() >= l)),
            path.len() >= 1,
            path.len() <= top + 1,
            path[0] == root,
            chain(mem0, path, top, va),
            table_flags.0 & PageTableFlags::PRESENT != 0,
            table_flags.0 < 8,
            lvl <= top,
            top <= 4,
            visited.len() == top - lvl + 1,
            visited[0] == root,
            visited.last() == table,
            changed_only(mem0, &pmm0, mem@, pmm, w0),
            !fresh ==> mem@ == mem0 && *pmm == pmm0 && path =~= visited.drop_last() + walk_path(
                mem0,
                table,
                lvl as nat,
                va,
            ) && walk(mem0, root, top, va, false) == walk(mem0, table, lvl as nat, va, false),
            fresh ==> (walk(mem0, root, top, va, false) matches WalkEnd::Absent(l) && l > lvl),
            fresh ==> table_ok(mem@, table) && newly_used(&pmm0, pmm, table as int / 4096),
            fresh ==> forall|i: int|
                0 <= i < 512 && #[trigger] pte(mem@, table, i) & PageTableFlags::PRESENT != 0 ==> pte(mem@, table, i)
                    & ADDR_MASK == table,
            fresh && ok ==> forall|i: int| 0 <= i < 512 ==> #[trigger] pte(mem@, table, i) == 0,
            fresh && enough ==> pmm.free_counter() >= lvl,
            ok ==> chain(mem@, visited, top, va),
            ok ==> forall|k: int| 0 <= k < visited.len() ==> #[trigger] pmm.used(visited[k] as int / 4096),
            ok ==> forall|i: int, j: int| 0 <= i < j < visited.len() ==> #[trigger] visited[i] != #[trigger] visited[j],
            ok && nh ==> chain_no_huge(mem@, visited, top, va),
        decreases lvl,
    {
        if !mem.table_in_memory(table) {
            return Err("Page table not identity-mapped");
        }
        let idx = level_index(virt_addr, lvl);
        let ghost mem_before = mem@;
        let ghost pmm_before = *pmm;
        let ghost present = pte(mem@, table, idx as int) & PageTableFlags::PRESENT != 0;
        proof {
            if !fresh && !present {
                assert(walk_path(mem0, table, lvl as nat, va) == seq![table]);
                assert(path =~= visited);
                assert(walk(mem0, table, lvl as nat, va, false) == WalkEnd::Absent(lvl as nat));
            }
            if fresh && ok && present {
                assert(pte(mem@, table, idx as int) == 0);
                lemma_zero_and(1u64);
            }
        }
        let next = match get_or_create_next_level(mem, pmm, table, idx, table_flags) {
            Ok(n) => n,
            Err(e) => {
                proof {
                    lemma_pmm_grew_trans(&pmm0, &pmm_before, pmm);
                    assert forall|w: int| 0 <= w < mem0.len() && #[trigger] mem@[w] != mem0[w] implies newly_used(
                        &pmm0,
                        pmm,
                        w / 512,
                    ) || w == w0 by {
                        if mem@[w] != mem_before[w] {
                            assert(newly_used(&pmm_before, pmm, w / 512));
                        }
                    }
                    if enough {
                        assert(pmm_before.used(0));
                        assert(pmm_before.total() == pmm0.total());
                    }
                }
                return Err(e);
            },
        };
        proof {
            lemma_pmm_grew_trans(&pmm0, &pmm_before, pmm);
            if present {
                if !fresh {
                    assert(walk_path(mem0, table, lvl as nat, va) == seq![table] + walk_path(mem0, next, (lvl - 1) as nat, va));
                    assert(path =~= visited.push(next).drop_last() + walk_path(mem0, next, (lvl - 1) as nat, va));
                    if ok {
                        lemma_walk_path(mem0, next, (lvl - 1) as nat, va);
                        lemma_path_prefix(mem0, &pmm0, root, top, va, visited.push(next));
                    }
                } else {
                    assert(next == table);
                    if ok {
                        lemma_chain_push(mem@, visited, top, va, next);
                        lemma_push_new_table(visited.drop_last(), &pmm_before, pmm, next);
                        assert(visited.drop_last().push(next) =~= visited);
                        assert(false);
                    }
                }
            } else {
                assert forall|w: int| 0 <= w < mem0.len() && #[trigger] mem@[w] != mem0[w] implies newly_used(
                    &pmm0,
                    pmm,
                    w / 512,
                ) || w == w0 by {
                    if mem@[w] != mem_before[w] && w != entry_word(table, idx as int) {
                        assert(newly_used(&pmm_before, pmm, w / 512));
                    }
                    if w == entry_word(table, idx as int) && fresh {
                        lemma_entry_word_frame(table, idx as int);
                    }
                }
                if ok {
                    assert forall|k: int| 0 <= k < visited.len() - 1 implies entry_word(#[trigger] visited[k], va_index(va, (top - k) as nat) as int)
                        != entry_word(table, idx as int) by {
                        assert(visited[k] != visited[visited.len() - 1]);
                        lemma_va_index_bound(va, (top - k) as nat);
                        lemma_entry_words_distinct(visited[k], table, va_index(va, (top - k) as nat) as int, idx as int);
                    }
                    lemma_chain_frame(mem_before, mem@, &pmm_before, pmm, visited, top, va, entry_word(table, idx as int));
                    lemma_chain_push(mem@, visited, top, va, next);
                    lemma_push_new_table(visited, &pmm_before, pmm, next);
                }
                fresh = true;
            }
            visited = visited.push(next);
        }
        table = next;
        lvl -= 1;
    }
    if !mem.table_in_memory(table) {
        return Err("Page table not identity-mapped");
    }
    let pt_idx = virt_addr.pt_index();
    let ghost mem_before = mem@;
    let mut pt_entry = PageTableEntry::new();
    pt_entry.set(phys_addr.as_u64(), flags);
    mem.write_entry(table, pt_idx, pt_entry.raw());
    proof {
        lemma_entry_word_frame(table, pt_idx as int);
        if !fresh {
            assert(walk_path(mem0, table, 0, va) == seq![table]);
            assert(path =~= visited);
        }
        if ok {
            assert forall|k: int| 0 <= k < visited.len() - 1 implies entry_word(#[trigger] visited[k], va_index(va, (top - k) as nat) as int)
                != entry_word(table, pt_idx as int) by {
                assert(visited[k] != visited[visited.len() - 1]);
                lemma_va_index_bound(va, (top - k) as nat);
                lemma_entry_words_distinct(visited[k], table, va_index(va, (top - k) as nat) as int, pt_idx as int);
            }
            lemma_chain_frame(mem_before, mem@, pmm, pmm, visited, top, va, entry_word(table, pt_idx as int));
            lemma_chain_walk(mem@, visited, top, va, false, 0);
            if nh {
                lemma_chain_walk(mem@, visited, top, va, true, 0);
            }
        }
    }
    Ok(())
}

/// Outcome of `remap_page(va -> pa, flags)` from memory `mem0` to `mem1`:
/// with all tables present down to the last level, its entry for `va` now
/// points at `pa` with `flags`; nothing changes otherwise.
pub open spec fn remap_post(
    manager: &PagingManager,
    mem0: Seq<u64>,
    mem1: Seq<u64>,
    va: u64,
    pa: u64,
    flags: u64,
    r: Result<(), &'static str>,
) -> bool {
    let root = manager.root_spec();
    let top = top_level(manager.mode_spec());
    &&& pa % 4096 != 0 ==> (r matches Err(s) && s@ == not_aligned_msg()) && mem1 == mem0
    &&& pa % 4096 == 0 ==> match walk(mem0, root, top, va, true) {
        WalkEnd::Leaf(l, _) => if l == 0 {
            r is Ok && mem1 == mem0.update(
                entry_word(walk_path(mem0, root, top, va).last(), va_index(va, 0) as int),
                entry_value(pa, flags),
            )
        } else {
            (r matches Err(s) && s@ == huge_remap_msg()) && mem1 == mem0
        },
        w => (r matches Err(s) && s@ == walk_error_msg(w)) && mem1 == mem0,
    }
}

/// Error text for remapping a page that a huge page maps.
pub open spec fn huge_remap_msg() -> Seq<char> {
    "Page is mapped by a huge page"@
}

/// A walk that counts huge pages and ends at a 4 KiB leaf, or ends without
/// a leaf, ends where the walk that does not count them ends.
pub proof fn lemma_walk_huge_agree(mem: Seq<u64>, table: u64, lvl: nat, va: u64)
    ensures
        (walk(mem, table, lvl, va, true) matches WalkEnd::Leaf(l, _) ==> l == 0) ==> walk(mem, table, lvl, va, false)
            == walk(mem, table, lvl, va, true),
    decreases lvl,
{
    if lvl > 0 && table_ok(mem, table) {
        let e = pte(mem, table, va_index(va, lvl) as int);
        lemma_walk_huge_agree(mem, e & ADDR_MASK, (lvl - 1) as nat, va);
    }
}

/// Point the existing last-level entry of `virt_addr` at `new_phys_addr`
/// with `flags`, keeping the tables above it; a page that a huge page maps
/// is refused (its frame holds data, not a table).
pub fn remap_page(
    manager: &PagingManager,
    mem: &mut PhysMemory,
    virt_addr: VirtAddr,
    new_phys_addr: PhysAddr,
    flags: PageTableFlags,
) -> (r: Result<(), &'static str>)
    requires
        old(mem).wf(),
    ensures
        final(mem).wf(),
        remap_post(manager, old(mem)@, final(mem)@, virt_addr.addr, new_phys_addr.0, flags.0, r),
{
    if !new_phys_addr.is_aligned() {
        return Err("Physical address not page-aligned");
    }
    proof {
        lemma_walk_leaf_level(mem@, manager.root_spec(), top_level(manager.mode_spec()), virt_addr.addr, false);
        lemma_walk_huge_agree(mem@, manager.root_spec(), top_level(manager.mode_spec()), virt_addr.addr);
    }
    match walk_tables(manager, mem, virt_addr, true) {
        Ok((lvl, _, _)) => {
            if lvl != 0 {
                return Err("Page is mapped by a huge page");
            }
        },
        Err(e) => {
            return Err(e);
        },
    }
    let table = match walk_tables(manager, mem, virt_addr, false) {
        Ok((_, _, t)) => t,
        Err(e) => {
            return Err(e);
        },
    };
    proof {
        lemma_walk_path(mem@, manager.root_spec(), top_level(manager.mode_spec()), virt_addr.addr);
        let p = walk_path(mem@, manager.root_spec(), top_level(manager.mode_spec()), virt_addr.addr);
        assert(chain(mem@, p, top_level(manager.mode_spec()), virt_addr.addr));
        if p.len() >= 2 {
            assert(table_ok(mem@, p[p.len() - 2]));
        }
        lemma_chain_walk(mem@, p, top_level(manager.mode_spec()), virt_addr.addr, false, 0);
    }
    let mut entry = PageTableEntry::new();
    entry.set(new_phys_addr.as_u64(), flags);
    mem.write_entry(table, virt_addr.pt_index(), entry.raw());
    Ok(())
}

/// Give the page at `virt_addr` new flags: translate it and remap it to the
/// address found (which fails unless that address is page-aligned).
pub fn change_page_flags(
    manager: &PagingManager,
    mem: &mut PhysMemory,
    virt_addr: VirtAddr,
    new_flags: PageTableFlags,
) -> (r: Result<(), &'static str>)
    requires
        old(mem).wf(),
    ensures
        final(mem).wf(),
        !canonical(virt_addr.addr, manager.mode_spec()) ==> (r matches Err(e) && e@ == not_canonical_msg(
            manager.mode_spec(),
        )) && final(mem)@ == old(mem)@,
        canonical(virt_addr.addr, manager.mode_spec()) ==> match walk(
            old(mem)@,
            manager.root_spec(),
            top_level(manager.mode_spec()),
            virt_addr.addr,
            true,
        ) {
            WalkEnd::Leaf(l, e) => remap_post(
                manager,
                old(mem)@,
                final(mem)@,
                virt_addr.addr,
                leaf_phys(l, e, virt_addr.addr),
                new_flags.0,
                r,
            ),
            w => (r matches Err(s) && s@ == walk_error_msg(w)) && final(mem)@ == old(mem)@,
        },
{
    let phys_addr = match translate_address(manager, mem, virt_addr) {
        Ok(p) => p,
        Err(e) => {
            return Err(e);
        },
    };
    remap_page(manager, mem, virt_addr, phys_addr, new_flags)
}

/// After mapping `va` to `pa` with present flags (flag bits only) along a path whose tables
/// the allocator uses, that are distinct and hold no huge pages, the walk for
/// `va` (huge pages counted, as `translate_address` and `get_page_flags` do)
/// ends at the new entry: it translates to `pa` plus the page offset and
/// reports `flags`.
pub proof fn lemma_map_then_translate(
    manager: &PagingManager,
    mem0: Seq<u64>,
    pmm0: &PhysicalMemoryManager,
    mem1: Seq<u64>,
    pmm1: &PhysicalMemoryManager,
    va: u64,
    pa: u64,
    flags: u64,
)
    requires
        map_post(manager, mem0, pmm0, mem1, pmm1, va, pa, flags, Ok(())),
        path_ok(mem0, pmm0, manager.root_spec(), top_level(manager.mode_spec()), va),
        no_huge_path(mem0, manager.root_spec(), top_level(manager.mode_spec()), va),
        flags & PageTableFlags::PRESENT != 0,
        flags & ADDR_MASK == 0,
    ensures
        walk(mem1, manager.root_spec(), top_level(manager.mode_spec()), va, true) == WalkEnd::Leaf(
            0,
            entry_value(pa, flags),
        ),
        leaf_phys(0, entry_value(pa, flags), va) == (pa & ADDR_MASK) | (va & 0xFFF),
        entry_value(pa, flags) & FLAGS_MASK == flags & FLAGS_MASK,
{
    assert(((pa & 0x000F_FFFF_FFFF_F000u64) | flags) & 1 != 0) by (bit_vector)
        requires
            flags & 1 != 0,
    ;
    assert(((pa & 0x000F_FFFF_FFFF_F000u64) | flags) & 0x000F_FFFF_FFFF_F000u64 | (va & 0xFFF) == (pa
        & 0x000F_FFFF_FFFF_F000u64) | (va & 0xFFF)) by (bit_vector)
        requires
            flags & 0x000F_FFFF_FFFF_F000u64 == 0,
    ;
    assert(((pa & 0x000F_FFFF_FFFF_F000u64) | flags) & 0x8000_0000_0000_0FFFu64 == flags & 0x8000_0000_0000_0FFFu64)
        by (bit_vector);
}

/// Walks for addresses whose table indices agree end alike.
pub proof fn lemma_walk_same_indices(mem: Seq<u64>, table: u64, lvl: nat, va: u64, vb: u64, huge: bool)
    requires
        forall|l: nat| l <= lvl ==> #[trigger] va_index(va, l) == va_index(vb, l),
    ensures
        walk(mem, table, lvl, va, huge) == walk(mem, table, lvl, vb, huge),
    decreases lvl,
{
    assert(va_index(va, lvl) == va_index(vb, lvl));
    if lvl > 0 && table_ok(mem, table) {
        let e = pte(mem, table, va_index(va, lvl) as int);
        lemma_walk_same_indices(mem, e & ADDR_MASK, (lvl - 1) as nat, va, vb, huge);
    }
}

/// After mapping `va` to `pa` with present flags (flag bits only) along a
/// path whose tables the allocator uses, that are distinct and hold no huge
/// pages, every address `(va & !0xFFF) | k` of `va`'s page (`k < 4096`) is
/// as canonical as `va`, walks to the new entry, translates to offset `k`
/// of `pa`'s frame and reports `flags`.
pub proof fn lemma_map_then_translate_page(
    manager: &PagingManager,
    mem0: Seq<u64>,
    pmm0: &PhysicalMemoryManager,
    mem1: Seq<u64>,
    pmm1: &PhysicalMemoryManager,
    va: u64,
    pa: u64,
    flags: u64,
    k: u64,
)
    requires
        map_post(manager, mem0, pmm0, mem1, pmm1, va, pa, flags, Ok(())),
        path_ok(mem0, pmm0, manager.root_spec(), top_level(manager.mode_spec()), va),
        no_huge_path(mem0, manager.root_spec(), top_level(manager.mode_spec()), va),
        flags & PageTableFlags::PRESENT != 0,
        flags & ADDR_MASK == 0,
        k < 4096,
    ensures
        canonical((va & !0xFFFu64) | k, manager.mode_spec()) == canonical(va, manager.mode_spec()),
        walk(mem1, manager.root_spec(), top_level(manager.mode_spec()), (va & !0xFFFu64) | k, true)
            == WalkEnd::Leaf(0, entry_value(pa, flags)),
        leaf_phys(0, entry_value(pa, flags), (va & !0xFFFu64) | k) == (pa & ADDR_MASK) | k,
        entry_value(pa, flags) & FLAGS_MASK == flags & FLAGS_MASK,
{
    lemma_map_then_translate(manager, mem0, pmm0, mem1, pmm1, va, pa, flags);
    let vk = (va & !0xFFFu64) | k;
    assert({
        &&& (vk >> 48u64) & 0x1FF == (va >> 48u64) & 0x1FF
        &&& (vk >> 39u64) & 0x1FF == (va >> 39u64) & 0x1FF
        &&& (vk >> 30u64) & 0x1FF == (va >> 30u64) & 0x1FF
        &&& (vk >> 21u64) & 0x1FF == (va >> 21u64) & 0x1FF
        &&& (vk >> 12u64) & 0x1FF == (va >> 12u64) & 0x1FF
        &&& vk >> 47u64 == va >> 47u64
        &&& vk >> 56u64 == va >> 56u64
        &&& vk & 0xFFF == k
        &&& ((pa & 0x000F_FFFF_FFFF_F000u64) | flags) & 0x000F_FFFF_FFFF_F000u64 == pa & 0x000F_FFFF_FFFF_F000u64
    }) by (bit_vector)
        requires
            vk == (va & !0xFFFu64) | k,
            k < 4096,
            flags & 0x000F_FFFF_FFFF_F000u64 == 0,
    ;
    assert forall|l: nat| l <= top_level(manager.mode_spec()) implies #[trigger] va_index(vk, l) == va_index(va, l) by {}
    lemma_walk_same_indices(mem1, manager.root_spec(), top_level(manager.mode_spec()), vk, va, true);
}

/// Word of the entry for `va` at level `l` of path `tables`, whose first
/// table has level `top`.
pub open spec fn path_word(tables: Seq<u64>, top: nat, va: u64, l: nat) -> int {
    entry_word(tables[top - l], va_index(va, l) as int)
}

/// `mem` with the entries for `va` at levels `0 ..= j` of path `tables`
/// cleared.
pub open spec fn cleared_upto(mem: Seq<u64>, tables: Seq<u64>, top: nat, va: u64, j: nat) -> Seq<u64>
    decreases j,
{
    if j == 0 {
        mem.update(path_word(tables, top, va, 0), 0)
    } else {
        cleared_upto(mem, tables, top, va, (j - 1) as nat).update(path_word(tables, top, va, j), 0)
    }
}

/// Every entry of the table at `table` is zero.
pub open spec fn table_empty(mem: Seq<u64>, table: u64) -> bool {
    forall|i: int| 0 <= i < 512 ==> #[trigger] pte(mem, table, i) == 0
}

/// How many tables of path `tables` unmapping frees from level `j` up: while
/// the table of the level is empty once the entries below are cleared, it is
/// freed and its entry in the level above is cleared; the root is never freed.
pub open spec fn free_depth(mem: Seq<u64>, tables: Seq<u64>, top: nat, va: u64, j: nat) -> nat
    decreases top - j,
{
    if j >= top || !table_empty(cleared_upto(mem, tables, top, va, j), tables[top - j]) {
        0
    } else {
        1 + free_depth(mem, tables, top, va, j + 1)
    }
}

/// Error text when freeing a table's frame fails.
pub open spec fn free_failed_msg() -> Seq<char> {
    "Failed to free page table frame"@
}

/// The `d` lowest tables of path `tables` are distinct frames the allocator
/// tracks and uses.
pub open spec fn frees_ok(pmm: &PhysicalMemoryManager, tables: Seq<u64>, top: nat, d: nat) -> bool {
    &&& forall|j: int| 0 <= j < d ==> #[trigger] pmm.used(tables[top - j] as int / 4096) && tables[top - j] as int
        / 4096 < pmm.total()
    &&& forall|i: int, j: int| 0 <= i < j < d ==> #[trigger] tables[top - i] != #[trigger] tables[top - j]
}

/// Frame `g` is the frame of one of the `d` lowest tables of path `tables`.
pub open spec fn freed_frame(tables: Seq<u64>, top: nat, d: nat, g: int) -> bool {
    exists|j: int| 0 <= j < d && g == #[trigger] tables[top - j] as int / 4096
}

/// Outcome of `unmap_page_internal(va, free_empty)` from memory `mem0` and
/// allocator `pmm0` to `mem1` and `pmm1`.
pub open spec fn unmap_post(
    manager: &PagingManager,
    mem0: Seq<u64>,
    pmm0: &PhysicalMemoryManager,
    mem1: Seq<u64>,
    pmm1: &PhysicalMemoryManager,
    va: u64,
    free_empty: bool,
    r: Result<(), &'static str>,
) -> bool {
    let root = manager.root_spec();
    let mode = manager.mode_spec();
    let top = top_level(mode);
    let tables = walk_path(mem0, root, top, va);
    let d = if free_empty {
        free_depth(mem0, tables, top, va, 0)
    } else {
        0
    };
    &&& pmm1.wf()
    &&& pmm0.same_layout(pmm1)
    &&& forall|g: int| #[trigger] pmm1.used(g) ==> pmm0.used(g)
    &&& pmm1.free_counter() <= pmm0.free_counter() + 4
    &&& !canonical(va, mode) ==> (r matches Err(s) && s@ == not_canonical_msg(mode)) && mem1 == mem0 && *pmm1
        == *pmm0
    &&& canonical(va, mode) ==> match walk(mem0, root, top, va, false) {
        WalkEnd::Leaf(_, _) => {
            &&& r is Ok ==> mem1 == cleared_upto(mem0, tables, top, va, d) && (forall|g: int| #[trigger] pmm1.used(g)
                == (pmm0.used(g) && !freed_frame(tables, top, d, g))) && pmm1.free_counter() == pmm0.free_counter()
                + d
            &&& r matches Err(s) ==> s@ == free_failed_msg() && exists|j: nat| 1 <= j <= d && mem1 == cleared_upto(
                mem0,
                tables,
                top,
                va,
                j,
            )
            &&& frees_ok(pmm0, tables, top, d) ==> r is Ok
        },
        w => (r matches Err(s) && s@ == walk_error_msg(w)) && mem1 == mem0 && *pmm1 == *pmm0,
    }
    &&& pmm0.counter_exact() ==> pmm1.counter_exact()
}

/// The tables of the walk for `va` (huge pages not counted) when it reaches
/// a present last-level entry, or the walk's error text.
fn path_tables(manager: &PagingManager, mem: &PhysMemory, va: VirtAddr) -> (r: Result<Vec<u64>, &'static str>)
    requires
        mem.wf(),
    ensures
        match walk(mem@, manager.root_spec(), top_level(manager.mode_spec()), va.addr, false) {
            WalkEnd::Leaf(_, _) => r matches Ok(v) && v@ == walk_path(
                mem@,
                manager.root_spec(),
                top_level(manager.mode_spec()),
                va.addr,
            ) && v@.len() == top_level(manager.mode_spec()) + 1,
            w => r matches Err(s) && s@ == walk_error_msg(w),
        },
{
    let mut table = manager.root_table_phys();
    let mut lvl = root_level(manager.mode());
    let ghost root = manager.root_spec();
    let ghost top = top_level(manager.mode_spec());
    let mut tables: Vec<u64> = Vec::new();
    loop
        invariant
            mem.wf(),
            lvl <= 4,
            lvl <= top,
            root == manager.root_spec(),
            top == top_level(manager.mode_spec()),
            walk(mem@, root, top, va.addr, false) == walk(mem@, table, lvl as nat, va.addr, false),
            tables@.len() == top - lvl,
            walk_path(mem@, root, top, va.addr) =~= tables@ + walk_path(mem@, table, lvl as nat, va.addr),
        decreases lvl,
    {
        if !mem.table_in_memory(table) {
            return Err("Page table not identity-mapped");
        }
        let entry = mem.read_entry(table, level_index(va, lvl));
        if !entry.is_present() {
            return Err(not_mapped_error(lvl));
        }
        tables.push(table);
        if lvl == 0 {
            return Ok(tables);
        }
        table = entry.address();
        lvl -= 1;
    }
}

impl PhysMemory {
    /// Whether every entry of the table at `table` is zero.
    fn is_page_table_empty(&self, table: u64) -> (r: bool)
        requires
            self.wf(),
            table_ok(self@, table),
        ensures
            r == table_empty(self@, table),
    {
        let mut i: usize = 0;
        while i < PAGE_TABLE_ENTRIES
            invariant
                self.wf(),
                table_ok(self@, table),
                i <= 512,
                forall|k: int| 0 <= k < i ==> #[trigger] pte(self@, table, k) == 0,
            decreases 512 - i,
        {
            if self.read_entry(table, i).raw() != 0 {
                return false;
            }
            i += 1;
        }
        true
    }
}

/// Free the frame of a page table.
fn free_page_table(pmm: &mut PhysicalMemoryManager, addr: u64) -> (r: Result<(), &'static str>)
    requires
        old(pmm).wf(),
    ensures
        exists|r0: Result<(), MemoryError>| #[trigger] old(pmm).free_frame_post(final(pmm), addr, r0) && (r is Ok <==> r0 is Ok),
        r matches Err(s) ==> s@ == free_failed_msg(),
{
    match pmm.free_frame(addr) {
        Ok(_) => Ok(()),
        Err(_) => Err("Failed to free page table frame"),
    }
}

/// Unmap the page at `virt_addr`: clear its last-level entry and, with
/// `free_empty`, free the tables left empty from the bottom up, clearing the
/// entries that pointed at them (the root table stays).
pub fn unmap_page_internal(
    manager: &PagingManager,
    mem: &mut PhysMemory,
    pmm: &mut PhysicalMemoryManager,
    virt_addr: VirtAddr,
    free_empty: bool,
) -> (r: Result<(), &'static str>)
    requires
        old(mem).wf(),
        old(pmm).wf(),
    ensures
        final(mem).wf(),
        unmap_post(manager, old(mem)@, old(pmm), final(mem)@, final(pmm), virt_addr.addr, free_empty, r),
{
    let ghost mem0 = mem@;
    let ghost pmm0 = *pmm;
    let ghost va = virt_addr.addr;
    let ghost root = manager.root_spec();
    let ghost top = top_level(manager.mode_spec());
    if let Some(e) = canonical_error(virt_addr, manager.mode()) {
        return Err(e);
    }
    let tables = match path_tables(manager, mem, virt_addr) {
        Ok(t) => t,
        Err(e) => {
            return Err(e);
        },
    };
    proof {
        lemma_walk_path(mem0, root, top, va);
        lemma_chain_walk(mem0, tables@, top, va, false, 0);
        assert forall|k: int| 0 <= k <= top implies table_ok(mem0, #[trigger] tables@[k]) by {
            if k < top {
                assert(chain(mem0, tables@, top, va));
            }
        }
    }
    let top_u = root_level(manager.mode());
    mem.write_entry(tables[top_u], virt_addr.pt_index(), 0);
    let ghost d = if free_empty {
        free_depth(mem0, tables@, top, va, 0)
    } else {
        0
    };
    if free_empty {
        let mut j: usize = 0;
        while j < top_u
            invariant
                mem.wf(),
                pmm.wf(),
                mem0 == old(mem)@,
                pmm0 == *old(pmm),
                va == virt_addr.addr,
                top == top_level(manager.mode_spec()),
                top_u == top,
                top <= 4,
                tables@.len() == top + 1,
                forall|k: int| 0 <= k <= top ==> table_ok(mem0, #[trigger] tables@[k]),
                mem@.len() == mem0.len(),
                j <= top,
                mem@ == cleared_upto(mem0, tables@, top, va, j as nat),
                free_depth(mem0, tables@, top, va, 0) == j + free_depth(mem0, tables@, top, va, j as nat),
                pmm0.same_layout(pmm),
                forall|g: int| #[trigger] pmm.used(g) == (pmm0.used(g) && !freed_frame(tables@, top, j as nat, g)),
                pmm.free_counter() == pmm0.free_counter() + j,
                pmm0.counter_exact() ==> pmm.counter_exact(),
                d == free_depth(mem0, tables@, top, va, 0),
                canonical(virt_addr.addr, manager.mode_spec()),
                root == manager.root_spec(),
                tables@ == walk_path(mem0, root, top, va),
                walk(mem0, root, top, va, false) is Leaf,
                free_empty,
            ensures
                j == top || !table_empty(cleared_upto(mem0, tables@, top, va, j as nat), tables@[top - j]),
                mem@ == cleared_upto(mem0, tables@, top, va, j as nat),
                free_depth(mem0, tables@, top, va, 0) == j + free_depth(mem0, tables@, top, va, j as nat),
                pmm0.same_layout(pmm),
                pmm.wf(),
                forall|g: int| #[trigger] pmm.used(g) == (pmm0.used(g) && !freed_frame(tables@, top, j as nat, g)),
                pmm.free_counter() == pmm0.free_counter() + j,
                pmm0.counter_exact() ==> pmm.counter_exact(),
            decreases top - j,
        {
            let t = tables[top_u - j];
            if !mem.is_page_table_empty(t) {
                break;
            }
            let ghost pmm_before = *pmm;
            mem.write_entry(tables[top_u - j - 1], level_index(virt_addr, j + 1), 0);
            let freed = free_page_table(pmm, t);
            if freed.is_err() {
                proof {
                    assert(free_depth(mem0, tables@, top, va, j as nat) >= 1);
                    assert(mem@ == cleared_upto(mem0, tables@, top, va, (j + 1) as nat));
                    if frees_ok(&pmm0, tables@, top, d) {
                        let f = t as int / 4096;
                        assert(pmm0.used(tables@[top - j] as int / 4096));
                        if freed_frame(tables@, top, j as nat, f) {
                            let i = choose|i: int| 0 <= i < j && f == #[trigger] tables@[top - i] as int / 4096;
                            assert(tables@[top - i] != tables@[top - j]);
                            assert(table_ok(mem0, tables@[top - i]));
                        }
                        assert(pmm_before.free_frame_error(t) is None);
                        let r0 = choose|r0: Result<(), MemoryError>| #[trigger] pmm_before.free_frame_post(pmm, t, r0)
                            && (freed is Ok <==> r0 is Ok);
                        assert(r0 is Ok);
                    }
                    let jj: nat = (j + 1) as nat;
                    assert(1 <= jj <= d && mem@ == cleared_upto(mem0, tables@, top, va, jj));
                    assert(exists|j2: nat| 1 <= j2 <= d && mem@ == cleared_upto(mem0, tables@, top, va, j2));
                }
                return Err("Failed to free page table frame");
            }
            j += 1;
        }
        proof {
            if j < top {
                assert(free_depth(mem0, tables@, top, va, j as nat) == 0);
            }
        }
    }
    Ok(())
}

/// Unmap the page at `virt_addr`, freeing the tables left empty.
pub fn unmap_page(
    manager: &PagingManager,
    mem: &mut PhysMemory,
    pmm: &mut PhysicalMemoryManager,
    virt_addr: VirtAddr,
) -> (r: Result<(), &'static str>)
    requires
        old(mem).wf(),
        old(pmm).wf(),
    ensures
        final(mem).wf(),
        unmap_post(manager, old(mem)@, old(pmm), final(mem)@, final(pmm), virt_addr.addr, true, r),
{
    unmap_page_internal(manager, mem, pmm, virt_addr, true)
}

/// One `map_page` call, as `map_post` states it.
#[verifier::opaque]
pub open spec fn map_step(
    manager: &PagingManager,
    mem0: Seq<u64>,
    pmm0: &PhysicalMemoryManager,
    mem1: Seq<u64>,
    pmm1: &PhysicalMemoryManager,
    va: u64,
    pa: u64,
    flags: u64,
    r: Result<(), &'static str>,
) -> bool {
    map_post(manager, mem0, pmm0, mem1, pmm1, va, pa, flags, r)
}

/// `ms` and `ps` are the memories and allocators of successive `map_page`
/// calls for pages `va0 + 4096 k -> pa0 + 4096 k` with `flags`, stopping at
/// the first error `r` or after `n` pages.
pub open spec fn map_steps(
    manager: &PagingManager,
    ms: Seq<Seq<u64>>,
    ps: Seq<PhysicalMemoryManager>,
    va0: u64,
    pa0: u64,
    n: nat,
    flags: u64,
    r: Result<(), &'static str>,
) -> bool {
    &&& ms.len() == ps.len()
    &&& 1 <= ms.len() <= n + 1
    &&& r is Ok ==> ms.len() == n + 1
    &&& r is Err ==> ms.len() >= 2
    &&& forall|k: int|
        0 <= k < ms.len() - 1 ==> map_step(
            manager,
            #[trigger] ms[k],
            &ps[k],
            ms[k + 1],
            &ps[k + 1],
            (va0 + 4096 * k) as u64,
            (pa0 + 4096 * k) as u64,
            flags,
            if k == ms.len() - 2 {
                r
            } else {
                Ok(())
            },
        )
}

/// Map `size` bytes (rounded up to pages) from `virt_start` to `phys_start`,
/// page by page, stopping at the first error.
#[verifier::rlimit(50)]
#[verifier::spinoff_prover]
pub fn map_range(
    manager: &PagingManager,
    mem: &mut PhysMemory,
    pmm: &mut PhysicalMemoryManager,
    virt_start: VirtAddr,
    phys_start: PhysAddr,
    size: usize,
    flags: PageTableFlags,
) -> (r: Result<(), &'static str>)
    requires
        old(mem).wf(),
        old(pmm).wf(),
        size + 4095 <= usize::MAX,
        virt_start.addr + (size + 4095) / 4096 * 4096 <= u64::MAX,
        phys_start.0 + (size + 4095) / 4096 * 4096 <= u64::MAX,
    ensures
        final(mem).wf(),
        final(pmm).counter_exact(),
        exists|ms: Seq<Seq<u64>>, ps: Seq<PhysicalMemoryManager>|
            #[trigger] map_steps(manager, ms, ps, virt_start.addr, phys_start.0, ((size + 4095) / 4096) as nat, flags.0, r)
                && ms[0] == old(mem)@ && ps[0] == *old(pmm) && ms.last() == final(mem)@ && ps.last() == *final(pmm),
{
    proof {
        lemma_wf_exact(*pmm);
    }
    let page_count = (size + (PAGE_SIZE - 1)) / PAGE_SIZE;
    let ghost mut ms: Seq<Seq<u64>> = seq![mem@];
    let ghost mut ps: Seq<PhysicalMemoryManager> = seq![*pmm];
    let mut i: usize = 0;
    while i < page_count
        invariant
            mem.wf(),
            pmm.wf(),
            pmm.counter_exact(),
            page_count == (size + 4095) / 4096,
            i <= page_count,
            virt_start.addr + page_count * 4096 <= u64::MAX,
            phys_start.0 + page_count * 4096 <= u64::MAX,
            map_steps(manager, ms, ps, virt_start.addr, phys_start.0, i as nat, flags.0, Ok(())),
            ms.len() == i + 1,
            ms[0] == old(mem)@,
            ps[0] == *old(pmm),
            ms.last() == mem@,
            ps.last() == *pmm,
        decreases page_count - i,
    {
        proof {
            assert(i * 4096 + 4096 <= page_count * 4096) by (nonlinear_arith)
                requires
                    i < page_count,
            ;
        }
        let virt = VirtAddr::new(virt_start.as_u64() + (i * PAGE_SIZE) as u64);
        let phys = PhysAddr::new(phys_start.as_u64() + (i * PAGE_SIZE) as u64);
        assert(virt.addr == (virt_start.addr + 4096 * i) as u64);
        assert(phys.0 == (phys_start.0 + 4096 * i) as u64);
        let ghost mem_before = mem@;
        let ghost pmm_before = *pmm;
        let res = map_page(manager, mem, pmm, virt, phys, flags);
        proof {
            assert(map_step(manager, mem_before, &pmm_before, mem@, pmm, virt.addr, phys.0, flags.0, res)) by {
                reveal(map_step);
            }
            let ms2 = ms.push(mem@);
            let ps2 = ps.push(*pmm);
            assert forall|k: int| 0 <= k < ms2.len() - 1 implies map_step(
                manager,
                #[trigger] ms2[k],
                &ps2[k],
                ms2[k + 1],
                &ps2[k + 1],
                (virt_start.addr + 4096 * k) as u64,
                (phys_start.0 + 4096 * k) as u64,
                flags.0,
                if k == ms2.len() - 2 {
                    res
                } else {
                    Ok(())
                },
            ) by {
                if k < ms.len() - 1 {
                    assert(ms2[k] == ms[k] && ms2[k + 1] == ms[k + 1] && ps2[k] == ps[k] && ps2[k + 1] == ps[k + 1]);
                } else {
                    assert(ms2[k] == mem_before && ps2[k] == pmm_before);
                }
            }
            ms = ms2;
            ps = ps2;
            if res.is_err() {
                assert(map_steps(manager, ms, ps, virt_start.addr, phys_start.0, ((size + 4095) / 4096) as nat, flags.0, res)
                    && ms[0] == old(mem)@ && ps[0] == *old(pmm) && ms.last() == mem@ && ps.last() == *pmm);
            } else if let Ok(u) = res {
                assert(u == ());
            }
        }
        if res.is_err() {
            return res;
        }
        i += 1;
    }
    proof {
        assert(map_steps(manager, ms, ps, virt_start.addr, phys_start.0, ((size + 4095) / 4096) as nat, flags.0, Ok(()))
            && ms[0] == old(mem)@ && ps[0] == *old(pmm) && ms.last() == mem@ && ps.last() == *pmm);
    }
    Ok(())
}

/// `a` rounded down to a page boundary.
pub open spec fn page_floor(a: u64) -> u64 {
    (a - a % 4096) as u64
}

/// `a` rounded up to a page boundary.
pub open spec fn page_ceil(a: u64) -> u64 {
    ((a + 4095) / 4096 * 4096) as u64
}

/// Pages from `start` up to `end` (none when `end <= start`).
pub open spec fn pages_between(start: u64, end: u64) -> nat {
    if start < end {
        ((end - start) / 4096) as nat
    } else {
        0
    }
}

/// Stepping page by page from aligned `start` towards aligned `end`.
proof fn lemma_page_steps(start: int, end: int, addr: int, i: int)
    requires
        start % 4096 == 0,
        end % 4096 == 0,
        addr == start + 4096 * i,
        0 <= i,
        start <= end,
    ensures
        addr < end ==> addr + 4096 <= end && i + 1 <= (end - start) / 4096,
        addr == end ==> i == (end - start) / 4096,
{
    assert(addr < end ==> addr + 4096 <= end && i + 1 <= (end - start) / 4096) by (nonlinear_arith)
        requires
            start % 4096 == 0,
            end % 4096 == 0,
            addr == start + 4096 * i,
    ;
    assert(addr == end ==> i == (end - start) / 4096) by (nonlinear_arith)
        requires
            addr == start + 4096 * i,
    ;
}

/// Identity-map the pages covering `[start_phys, end_phys)`: the start is
/// rounded down and the end up to page boundaries; stops at the first error.
#[verifier::rlimit(50)]
#[verifier::spinoff_prover]
pub fn identity_map_range(
    manager: &PagingManager,
    mem: &mut PhysMemory,
    pmm: &mut PhysicalMemoryManager,
    start_phys: PhysAddr,
    end_phys: PhysAddr,
    flags: PageTableFlags,
) -> (r: Result<(), &'static str>)
    requires
        old(mem).wf(),
        old(pmm).wf(),
        end_phys.0 + 0xFFF <= u64::MAX,
    ensures
        final(mem).wf(),
        final(pmm).counter_exact(),
        exists|ms: Seq<Seq<u64>>, ps: Seq<PhysicalMemoryManager>|
            #[trigger] map_steps(
                manager,
                ms,
                ps,
                page_floor(start_phys.0),
                page_floor(start_phys.0),
                pages_between(page_floor(start_phys.0), page_ceil(end_phys.0)),
                flags.0,
                r,
            ) && ms[0] == old(mem)@ && ps[0] == *old(pmm) && ms.last() == final(mem)@ && ps.last() == *final(pmm),
{
    proof {
        lemma_wf_exact(*pmm);
    }
    let start = start_phys.align_down().as_u64();
    let end = end_phys.align_up().as_u64();
    let ghost n: nat = pages_between(start, end);
    let ghost mut ms: Seq<Seq<u64>> = seq![mem@];
    let ghost mut ps: Seq<PhysicalMemoryManager> = seq![*pmm];
    let mut addr = start;
    let ghost mut i: nat = 0;
    proof {
        assert(start % 4096 == 0);
        assert(end % 4096 == 0);
    }
    while addr < end
        invariant
            mem.wf(),
            pmm.wf(),
            pmm.counter_exact(),
            start % 4096 == 0,
            end % 4096 == 0,
            start == page_floor(start_phys.0),
            end == page_ceil(end_phys.0),
            start <= addr,
            addr == start + 4096 * i,
            addr <= end || i == 0,
            i == 0 || start < end,
            n == pages_between(start, end),
            map_steps(manager, ms, ps, start, start, i, flags.0, Ok(())),
            ms.len() == i + 1,
            ms[0] == old(mem)@,
            ps[0] == *old(pmm),
            ms.last() == mem@,
            ps.last() == *pmm,
        decreases end - addr,
    {
        let virt = VirtAddr::new(addr);
        let phys = PhysAddr::new(addr);
        let ghost mem_before = mem@;
        let ghost pmm_before = *pmm;
        let res = map_page(manager, mem, pmm, virt, phys, flags);
        proof {
            assert(map_step(manager, mem_before, &pmm_before, mem@, pmm, virt.addr, phys.0, flags.0, res)) by {
                reveal(map_step);
            }
            let ms2 = ms.push(mem@);
            let ps2 = ps.push(*pmm);
            assert forall|k: int| 0 <= k < ms2.len() - 1 implies map_step(
                manager,
                #[trigger] ms2[k],
                &ps2[k],
                ms2[k + 1],
                &ps2[k + 1],
                (start + 4096 * k) as u64,
                (start + 4096 * k) as u64,
                flags.0,
                if k == ms2.len() - 2 {
                    res
                } else {
                    Ok(())
                },
            ) by {
                if k < ms.len() - 1 {
                    assert(ms2[k] == ms[k] && ms2[k + 1] == ms[k + 1] && ps2[k] == ps[k] && ps2[k + 1] == ps[k + 1]);
                } else {
                    assert(ms2[k] == mem_before && ps2[k] == pmm_before);
                }
            }
            ms = ms2;
            ps = ps2;
            lemma_page_steps(start as int, end as int, addr as int, i as int);
            if res.is_err() {
                assert(map_steps(manager, ms, ps, start, start, n, flags.0, res) && ms[0] == old(mem)@ && ps[0]
                    == *old(pmm) && ms.last() == mem@ && ps.last() == *pmm);
            } else if let Ok(u) = res {
                assert(u == ());
            }
        }
        if res.is_err() {
            return res;
        }
        proof {
            lemma_page_steps(start as int, end as int, addr as int, i as int);
            i = i + 1;
        }
        addr += PAGE_SIZE as u64;
    }
    proof {
        if start < end {
            lemma_page_steps(start as int, end as int, addr as int, i as int);
        }
        assert(map_steps(manager, ms, ps, start, start, n, flags.0, Ok(())) && ms[0] == old(mem)@ && ps[0]
            == *old(pmm) && ms.last() == mem@ && ps.last() == *pmm);
    }
    Ok(())
}

/// One `unmap_page` call, as `unmap_post` states it.
#[verifier::opaque]
pub open spec fn unmap_step(
    manager: &PagingManager,
    mem0: Seq<u64>,
    pmm0: &PhysicalMemoryManager,
    mem1: Seq<u64>,
    pmm1: &PhysicalMemoryManager,
    va: u64,
    r: Result<(), &'static str>,
) -> bool {
    unmap_post(manager, mem0, pmm0, mem1, pmm1, va, true, r)
}

/// `ms` and `ps` are the memories and allocators of successive
/// `unmap_page` calls for pages `va0 + 4096 k`, stopping at the first error
/// `r` or after `n` pages.
pub open spec fn unmap_steps(
    manager: &PagingManager,
    ms: Seq<Seq<u64>>,
    ps: Seq<PhysicalMemoryManager>,
    va0: u64,
    n: nat,
    r: Result<(), &'static str>,
) -> bool {
    &&& ms.len() == ps.len()
    &&& 1 <= ms.len() <= n + 1
    &&& r is Ok ==> ms.len() == n + 1
    &&& r is Err ==> ms.len() >= 2
    &&& forall|k: int|
        0 <= k < ms.len() - 1 ==> unmap_step(
            manager,
            #[trigger] ms[k],
            &ps[k],
            ms[k + 1],
            &ps[k + 1],
            (va0 + 4096 * k) as u64,
            if k == ms.len() - 2 {
                r
            } else {
                Ok(())
            },
        )
}

/// Unmap `size` bytes (rounded up to pages) from `virt_start`, page by page,
/// stopping at the first error.
#[verifier::rlimit(50)]
#[verifier::spinoff_prover]
pub fn unmap_range(
    manager: &PagingManager,
    mem: &mut PhysMemory,
    pmm: &mut PhysicalMemoryManager,
    virt_start: VirtAddr,
    size: usize,
) -> (r: Result<(), &'static str>)
    requires
        old(mem).wf(),
        old(pmm).wf(),
        size + 4095 <= usize::MAX,
        virt_start.addr + (size + 4095) / 4096 * 4096 <= u64::MAX,
    ensures
        final(mem).wf(),
        exists|ms: Seq<Seq<u64>>, ps: Seq<PhysicalMemoryManager>|
            #[trigger] unmap_steps(manager, ms, ps, virt_start.addr, ((size + 4095) / 4096) as nat, r) && ms[0]
                == old(mem)@ && ps[0] == *old(pmm) && ms.last() == final(mem)@ && ps.last() == *final(pmm),
{
    let page_count = (size + (PAGE_SIZE - 1)) / PAGE_SIZE;
    let ghost mut ms: Seq<Seq<u64>> = seq![mem@];
    let ghost mut ps: Seq<PhysicalMemoryManager> = seq![*pmm];
    let mut i: usize = 0;
    while i < page_count
        invariant
            mem.wf(),
            pmm.wf(),
            page_count == (size + 4095) / 4096,
            i <= page_count,
            virt_start.addr + page_count * 4096 <= u64::MAX,
            unmap_steps(manager, ms, ps, virt_start.addr, i as nat, Ok(())),
            ms.len() == i + 1,
            ms[0] == old(mem)@,
            ps[0] == *old(pmm),
            ms.last() == mem@,
            ps.last() == *pmm,
        decreases page_count - i,
    {
        proof {
            assert(i * 4096 + 4096 <= page_count * 4096) by (nonlinear_arith)
                requires
                    i < page_count,
            ;
        }
        let virt = VirtAddr::new(virt_start.as_u64() + (i * PAGE_SIZE) as u64);
        assert(virt.addr == (virt_start.addr + 4096 * i) as u64);
        let ghost mem_before = mem@;
        let ghost pmm_before = *pmm;
        let res = unmap_page(manager, mem, pmm, virt);
        proof {
            assert(unmap_step(manager, mem_before, &pmm_before, mem@, pmm, virt.addr, res)) by {
                reveal(unmap_step);
            }
            let ms2 = ms.push(mem@);
            let ps2 = ps.push(*pmm);
            assert forall|k: int| 0 <= k < ms2.len() - 1 implies unmap_step(
                manager,
                #[trigger] ms2[k],
                &ps2[k],
                ms2[k + 1],
                &ps2[k + 1],
                (virt_start.addr + 4096 * k) as u64,
                if k == ms2.len() - 2 {
                    res
                } else {
                    Ok(())
                },
            ) by {
                if k < ms.len() - 1 {
                    assert(ms2[k] == ms[k] && ms2[k + 1] == ms[k + 1] && ps2[k] == ps[k] && ps2[k + 1] == ps[k + 1]);
                } else {
                    assert(ms2[k] == mem_before && ps2[k] == pmm_before);
                }
            }
            ms = ms2;
            ps = ps2;
            if res.is_err() {
                assert(unmap_steps(manager, ms, ps, virt_start.addr, ((size + 4095) / 4096) as nat, res) && ms[0]
                    == old(mem)@ && ps[0] == *old(pmm) && ms.last() == mem@ && ps.last() == *pmm);
            } else if let Ok(u) = res {
                assert(u == ());
            }
        }
        if res.is_err() {
            return res;
        }
        i += 1;
    }
    proof {
        assert(unmap_steps(manager, ms, ps, virt_start.addr, ((size + 4095) / 4096) as nat, Ok(())) && ms[0]
            == old(mem)@ && ps[0] == *old(pmm) && ms.last() == mem@ && ps.last() == *pmm);
    }
    Ok(())
}

/// Clearing the path entries of levels `0 ..= j` zeroes those words and
/// keeps every other word.
proof fn lemma_cleared_upto(mem: Seq<u64>, tables: Seq<u64>, top: nat, va: u64, j: nat, w: int)
    requires
        forall|i: nat| i <= j ==> 0 <= #[trigger] path_word(tables, top, va, i) < mem.len(),
    ensures
        cleared_upto(mem, tables, top, va, j).len() == mem.len(),
        0 <= w < mem.len() && (forall|i: nat| i <= j ==> w != #[trigger] path_word(tables, top, va, i)) ==> cleared_upto(
            mem,
            tables,
            top,
            va,
            j,
        )[w] == mem[w],
    decreases j,
{
    assert(0 <= path_word(tables, top, va, j) < mem.len());
    if j > 0 {
        assert forall|i: nat| i <= (j - 1) as nat implies 0 <= #[trigger] path_word(tables, top, va, i) < mem.len() by {
            assert(i <= j);
        }
        lemma_cleared_upto(mem, tables, top, va, (j - 1) as nat, w);
        if forall|i: nat| i <= j ==> w != #[trigger] path_word(tables, top, va, i) {
            assert(w != path_word(tables, top, va, j));
            assert forall|i: nat| i <= (j - 1) as nat implies w != #[trigger] path_word(tables, top, va, i) by {
                assert(i <= j);
            }
        }
    } else {
        if forall|i: nat| i <= j ==> w != #[trigger] path_word(tables, top, va, i) {
            assert(w != path_word(tables, top, va, 0));
        }
    }
}

/// The cleared entry of level `j` reads zero after clearing up to `j`.
proof fn lemma_cleared_upto_last(mem: Seq<u64>, tables: Seq<u64>, top: nat, va: u64, j: nat)
    requires
        forall|i: nat| i <= j ==> 0 <= #[trigger] path_word(tables, top, va, i) < mem.len(),
    ensures
        cleared_upto(mem, tables, top, va, j)[path_word(tables, top, va, j)] == 0,
{
    assert(0 <= path_word(tables, top, va, j) < mem.len());
    if j > 0 {
        assert forall|i: nat| i <= (j - 1) as nat implies 0 <= #[trigger] path_word(tables, top, va, i) < mem.len() by {
            assert(i <= j);
        }
        lemma_cleared_upto(mem, tables, top, va, (j - 1) as nat, 0);
    }
}

/// A walk (huge pages not counted) that reaches a leaf passes one table per
/// level.
proof fn lemma_walk_path_leaf(mem: Seq<u64>, table: u64, lvl: nat, va: u64)
    ensures
        walk(mem, table, lvl, va, false) is Leaf ==> walk_path(mem, table, lvl, va).len() == lvl + 1,
    decreases lvl,
{
    if lvl > 0 && table_ok(mem, table) && pte(mem, table, va_index(va, lvl) as int) & PageTableFlags::PRESENT != 0 {
        lemma_walk_path_leaf(mem, pte(mem, table, va_index(va, lvl) as int) & ADDR_MASK, (lvl - 1) as nat, va);
    }
}

/// Unmapping frees at most the tables below the root.
proof fn lemma_free_depth_bound(mem: Seq<u64>, tables: Seq<u64>, top: nat, va: u64, j: nat)
    ensures
        j <= top ==> free_depth(mem, tables, top, va, j) <= top - j,
    decreases top - j,
{
    if j < top {
        lemma_free_depth_bound(mem, tables, top, va, j + 1);
    }
}

/// After unmapping `va` along a path whose tables the allocator uses, that
/// are distinct and hold no huge pages, the walk for `va` (huge pages
/// counted, as `translate_address` does) finds an absent entry: the page is
/// no longer mapped.
pub proof fn lemma_unmap_then_translate(
    manager: &PagingManager,
    mem0: Seq<u64>,
    pmm0: &PhysicalMemoryManager,
    mem1: Seq<u64>,
    pmm1: &PhysicalMemoryManager,
    va: u64,
    free_empty: bool,
)
    requires
        unmap_post(manager, mem0, pmm0, mem1, pmm1, va, free_empty, Ok(())),
        canonical(va, manager.mode_spec()),
        walk(mem0, manager.root_spec(), top_level(manager.mode_spec()), va, false) is Leaf,
        path_ok(mem0, pmm0, manager.root_spec(), top_level(manager.mode_spec()), va),
        no_huge_path(mem0, manager.root_spec(), top_level(manager.mode_spec()), va),
    ensures
        walk(mem1, manager.root_spec(), top_level(manager.mode_spec()), va, true) is Absent,
{
    let root = manager.root_spec();
    let top = top_level(manager.mode_spec());
    let tables = walk_path(mem0, root, top, va);
    let d = if free_empty {
        free_depth(mem0, tables, top, va, 0)
    } else {
        0
    };
    lemma_walk_path(mem0, root, top, va);
    lemma_chain_walk(mem0, tables, top, va, false, 0);
    lemma_free_depth_bound(mem0, tables, top, va, 0);
    lemma_walk_path_leaf(mem0, root, top, va);
    assert forall|k: int| 0 <= k <= top implies table_ok(mem0, #[trigger] tables[k]) by {
        if k < top {
            assert(chain(mem0, tables, top, va));
        }
    }
    assert forall|i: nat| i <= d implies 0 <= #[trigger] path_word(tables, top, va, i) < mem0.len() by {
        lemma_va_index_bound(va, i);
        assert(table_ok(mem0, tables[top - i]));
    }
    let prefix = tables.take(top - d + 1);
    lemma_path_prefix(mem0, pmm0, root, top, va, prefix);
    assert forall|k: int| 0 <= k < prefix.len() - 1 implies pte(mem1, #[trigger] prefix[k], va_index(va, (top - k) as nat) as int)
        == pte(mem0, prefix[k], va_index(va, (top - k) as nat) as int) by {
        let w = entry_word(prefix[k], va_index(va, (top - k) as nat) as int);
        assert(prefix[k] == tables[k]);
        lemma_va_index_bound(va, (top - k) as nat);
        assert(table_ok(mem0, tables[k]));
        assert forall|i: nat| i <= d implies w != #[trigger] path_word(tables, top, va, i) by {
            lemma_va_index_bound(va, (top - k) as nat);
            lemma_va_index_bound(va, i);
            assert(tables[k] != tables[top - i]);
            lemma_entry_words_distinct(tables[k], tables[top - i], va_index(va, (top - k) as nat) as int, va_index(va, i) as int);
        }
        lemma_cleared_upto(mem0, tables, top, va, d, w);
    }
    lemma_cleared_upto(mem0, tables, top, va, d, 0);
    assert(chain(mem1, prefix, top, va));
    assert(chain_no_huge(mem1, prefix, top, va));
    lemma_chain_walk(mem1, prefix, top, va, true, 0);
    lemma_va_index_bound(va, d);
    assert(table_ok(mem0, tables[top - d]));
    lemma_cleared_upto_last(mem0, tables, top, va, d);
    lemma_zero_and(1u64);
}

/// The address at which page-table memory at physical `phys_addr` is
/// reached: itself inside the identity-mapped first 4 GiB, 0 beyond it.
pub fn phys_to_virt(phys_addr: u64) -> (r: u64)
    ensures
        r == if phys_addr >= 0x1_0000_0000 {
            0
        } else {
            phys_addr
        },
{
    if phys_addr >= 0x1_0000_0000 {
        0
    } else {
        phys_addr
    }
}

} // verus!
