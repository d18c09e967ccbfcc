//! Global descriptor table with 4 GiB flat segments: the null, kernel and
//! user code and data descriptors and the task state segment descriptor.
use vstd::prelude::*;
use crate::tss::{ist_of, TaskStateSegment, TSS_SIZE};

verus! {

/// Kernel code segment selector.
pub const KERNEL_CODE_SELECTOR: u16 = 0x08;

/// Kernel data segment selector.
pub const KERNEL_DATA_SELECTOR: u16 = 0x10;

/// User data segment selector (index 3, RPL 3).
pub const USER_DATA_SELECTOR: u16 = 0x1B;

/// User code segment selector (index 4, RPL 3).
pub const USER_CODE_SELECTOR: u16 = 0x23;

/// Task state segment selector.
pub const TSS_SELECTOR: u16 = 0x28;

/// Size in bytes of the table: five descriptors and the 16-byte TSS
/// descriptor.
pub const GDT_SIZE: u16 = 56;

/// A segment descriptor.
#[derive(Clone, Copy, Debug)]
pub struct GdtEntry {
    pub limit_low: u16,
    pub base_low: u16,
    pub base_middle: u8,
    pub access: u8,
    pub flags_limit_high: u8,
    pub base_high: u8,
}

/// The descriptor for `base`, `limit`, `access` and `flags`: the limit's
/// low 16 and high 4 bits, the base's three parts, and the flags in the
/// high nibble of the byte holding the limit's high bits.
pub open spec fn descriptor(base: u64, limit: u32, access: u8, flags: u8) -> GdtEntry {
    GdtEntry {
        limit_low: (limit & 0xFFFF) as u16,
        base_low: (base & 0xFFFF) as u16,
        base_middle: ((base >> 16u64) & 0xFF) as u8,
        access,
        flags_limit_high: (((limit >> 16u32) & 0x0F) as u8) | (((flags & 0x0F) as u8) << 4u8),
        base_high: ((base >> 24u64) & 0xFF) as u8,
    }
}

/// The base's parts are the same taken from 32 or 64 bits.
pub proof fn lemma_base_parts(base: u32)
    by (bit_vector)
    ensures
        ((base as u64) & 0xFFFF) as u16 == (base & 0xFFFF) as u16,
        (((base as u64) >> 16u64) & 0xFF) as u8 == ((base >> 16u32) & 0xFF) as u8,
        (((base as u64) >> 24u64) & 0xFF) as u8 == ((base >> 24u32) & 0xFF) as u8,
{
}

/// The all-zero descriptor.
pub open spec fn null_descriptor() -> GdtEntry {
    GdtEntry { limit_low: 0, base_low: 0, base_middle: 0, access: 0, flags_limit_high: 0, base_high: 0 }
}

impl GdtEntry {
    /// The null descriptor.
    pub fn null() -> (r: GdtEntry)
        ensures
            r == null_descriptor(),
    {
        GdtEntry { limit_low: 0, base_low: 0, base_middle: 0, access: 0, flags_limit_high: 0, base_high: 0 }
    }

    /// The descriptor for `base`, `limit`, `access` and `flags`.
    pub fn new(base: u32, limit: u32, access: u8, flags: u8) -> (r: GdtEntry)
        ensures
            r == descriptor(base as u64, limit, access, flags),
    {
        proof {
            lemma_base_parts(base);
        }
        GdtEntry {
            limit_low: (limit & 0xFFFF) as u16,
            base_low: (base & 0xFFFF) as u16,
            base_middle: ((base >> 16u32) & 0xFF) as u8,
            access,
            flags_limit_high: (((limit >> 16u32) & 0x0F) as u8) | ((flags & 0x0F) << 4u8),
            base_high: ((base >> 24u32) & 0xFF) as u8,
        }
    }

    /// 64-bit kernel code: present, ring 0, executable, readable; long mode
    /// with 4 KiB granularity over a 4 GiB limit.
    pub fn kernel_code_segment() -> (r: GdtEntry)
        ensures
            r == descriptor(0, 0xFFFFF, 0x9A, 0x0A),
    {
        GdtEntry::new(0, 0xFFFFF, 0x9A, 0x0A)
    }

    /// Kernel data: present, ring 0, writable; 32-bit, 4 KiB granularity.
    pub fn kernel_data_segment() -> (r: GdtEntry)
        ensures
            r == descriptor(0, 0xFFFFF, 0x92, 0x0C),
    {
        GdtEntry::new(0, 0xFFFFF, 0x92, 0x0C)
    }

    /// 64-bit user code: as kernel code at ring 3.
    pub fn user_code_segment() -> (r: GdtEntry)
        ensures
            r == descriptor(0, 0xFFFFF, 0xFA, 0x0A),
    {
        GdtEntry::new(0, 0xFFFFF, 0xFA, 0x0A)
    }

    /// User data: as kernel data at ring 3.
    pub fn user_data_segment() -> (r: GdtEntry)
        ensures
            r == descriptor(0, 0xFFFFF, 0xF2, 0x0C),
    {
        GdtEntry::new(0, 0xFFFFF, 0xF2, 0x0C)
    }
}

/// The 16-byte descriptor of a task state segment.
#[derive(Clone, Copy, Debug)]
pub struct TssEntry {
    pub low: GdtEntry,
    pub base_upper: u32,
    pub reserved: u32,
}

impl TssEntry {
    /// The empty descriptor.
    pub fn null() -> (r: TssEntry)
        ensures
            r.low == null_descriptor() && r.base_upper == 0 && r.reserved == 0,
    {
        TssEntry { low: GdtEntry::null(), base_upper: 0, reserved: 0 }
    }

    /// The descriptor of a `tss_size`-byte segment at `tss_addr`: an
    /// available 64-bit TSS (access 0x89), limit `tss_size - 1`.
    pub fn new(tss_addr: u64, tss_size: u32) -> (r: TssEntry)
        requires
            tss_size >= 1,
        ensures
            r.low == descriptor(tss_addr, (tss_size - 1) as u32, 0x89, 0),
            r.base_upper == ((tss_addr >> 32u64) & 0xFFFF_FFFF) as u32,
            r.reserved == 0,
    {
        let base = tss_addr;
        let limit = tss_size - 1;
        let access: u8 = 0x89;
        let flags: u8 = 0x00;
        TssEntry {
            low: GdtEntry {
                limit_low: (limit & 0xFFFF) as u16,
                base_low: (base & 0xFFFF) as u16,
                base_middle: ((base >> 16u64) & 0xFF) as u8,
                access,
                flags_limit_high: (((limit >> 16u32) & 0x0F) as u8) | ((flags & 0x0F) << 4u8),
                base_high: ((base >> 24u64) & 0xFF) as u8,
            },
            base_upper: ((base >> 32u64) & 0xFFFF_FFFF) as u32,
            reserved: 0,
        }
    }
}

/// The operand of `lgdt`: size minus one and base address of the table.
#[derive(Clone, Copy, Debug)]
pub struct GdtPointer {
    pub limit: u16,
    pub base: u64,
}

/// The global descriptor table.
#[derive(Clone, Copy, Debug)]
pub struct Gdt {
    pub null: GdtEntry,
    pub kernel_code: GdtEntry,
    pub kernel_data: GdtEntry,
    pub user_data: GdtEntry,
    pub user_code: GdtEntry,
    pub tss: TssEntry,
}

impl Gdt {
    /// The table with the null, kernel and user segments and an empty TSS
    /// descriptor.
    pub fn new() -> (r: Gdt)
        ensures
            r.null == null_descriptor(),
            r.kernel_code == descriptor(0, 0xFFFFF, 0x9A, 0x0A),
            r.kernel_data == descriptor(0, 0xFFFFF, 0x92, 0x0C),
            r.user_data == descriptor(0, 0xFFFFF, 0xF2, 0x0C),
            r.user_code == descriptor(0, 0xFFFFF, 0xFA, 0x0A),
            r.tss.low == null_descriptor() && r.tss.base_upper == 0 && r.tss.reserved == 0,
    {
        Gdt {
            null: GdtEntry::null(),
            kernel_code: GdtEntry::kernel_code_segment(),
            kernel_data: GdtEntry::kernel_data_segment(),
            user_data: GdtEntry::user_data_segment(),
            user_code: GdtEntry::user_code_segment(),
            tss: TssEntry::null(),
        }
    }

    /// Point the TSS descriptor at the task state segment at `tss_addr`.
    pub fn set_tss(&mut self, tss_addr: u64)
        ensures
            final(self).tss.low == descriptor(tss_addr, (TSS_SIZE - 1) as u32, 0x89, 0),
            final(self).tss.base_upper == ((tss_addr >> 32u64) & 0xFFFF_FFFF) as u32,
            final(self).tss.reserved == 0,
            final(self).null == old(self).null && final(self).kernel_code == old(self).kernel_code
                && final(self).kernel_data == old(self).kernel_data && final(self).user_data == old(self).user_data
                && final(self).user_code == old(self).user_code,
    {
        self.tss = TssEntry::new(tss_addr, TSS_SIZE as u32);
    }

    /// The `lgdt` operand for this table placed at `base`.
    pub fn pointer(&self, base: u64) -> (r: GdtPointer)
        ensures
            r.limit == GDT_SIZE - 1,
            r.base == base,
    {
        GdtPointer { limit: GDT_SIZE - 1, base }
    }
}

/// The tables `init` loads, for a task state segment at `tss_addr` and a
/// table at `gdt_addr`: ring-0 stack at 9 MiB, IST slots 1 to 3 below it,
/// no I/O bitmap.
pub fn init(tss_addr: u64, gdt_addr: u64) -> (r: (Gdt, TaskStateSegment, GdtPointer))
    ensures
        r.1.rsp0 == 0x90_0000,
        r.1.ist1 == 0x8F_0000 && r.1.ist2 == 0x8E_0000 && r.1.ist3 == 0x8D_0000,
        r.1.ist4 == 0 && r.1.ist5 == 0 && r.1.ist6 == 0 && r.1.ist7 == 0,
        r.1.rsp1 == 0 && r.1.rsp2 == 0,
        r.1.iopb_offset == TSS_SIZE,
        r.0 == (Gdt {
            null: null_descriptor(),
            kernel_code: descriptor(0, 0xFFFFF, 0x9A, 0x0A),
            kernel_data: descriptor(0, 0xFFFFF, 0x92, 0x0C),
            user_data: descriptor(0, 0xFFFFF, 0xF2, 0x0C),
            user_code: descriptor(0, 0xFFFFF, 0xFA, 0x0A),
            tss: r.0.tss,
        }),
        r.0.tss.low == descriptor(tss_addr, (TSS_SIZE - 1) as u32, 0x89, 0),
        r.0.tss.base_upper == ((tss_addr >> 32u64) & 0xFFFF_FFFF) as u32,
        r.0.tss.reserved == 0,
        r.2.limit == GDT_SIZE - 1 && r.2.base == gdt_addr,
{
    let mut tss = TaskStateSegment::new();
    assert(ist_of(tss, 4) == 0 && ist_of(tss, 5) == 0 && ist_of(tss, 6) == 0 && ist_of(tss, 7) == 0);
    tss.rsp0 = 0x90_0000;
    tss.ist1 = 0x8F_0000;
    tss.ist2 = 0x8E_0000;
    tss.ist3 = 0x8D_0000;
    tss.iopb_offset = TSS_SIZE;
    let mut gdt = Gdt::new();
    gdt.set_tss(tss_addr);
    let pointer = gdt.pointer(gdt_addr);
    (gdt, tss, pointer)
}

/// Kernel code segment selector.
pub fn kernel_code_selector() -> (r: u16)
    ensures
        r == KERNEL_CODE_SELECTOR,
{
    KERNEL_CODE_SELECTOR
}

/// Kernel data segment selector.
pub fn kernel_data_selector() -> (r: u16)
    ensures
        r == KERNEL_DATA_SELECTOR,
{
    KERNEL_DATA_SELECTOR
}

/// User code segment selector.
pub fn user_code_selector() -> (r: u16)
    ensures
        r == USER_CODE_SELECTOR,
{
    USER_CODE_SELECTOR
}

/// User data segment selector.
pub fn user_data_selector() -> (r: u16)
    ensures
        r == USER_DATA_SELECTOR,
{
    USER_DATA_SELECTOR
}

/// Set the ring-0 stack of the task state segment.
pub fn set_kernel_stack(tss: &mut TaskStateSegment, stack_ptr: u64)
    ensures
        *final(tss) == (TaskStateSegment { rsp0: stack_ptr, ..*old(tss) }),
{
    tss.set_rsp0(stack_ptr);
}

} // verus!
