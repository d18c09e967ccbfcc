//! The boot information block the bootloader leaves at 0x6000: how the
//! machine booted, where the ACPI RSDP is, and how many memory-map entries
//! there are.
use vstd::prelude::*;

verus! {

/// Address of the boot information block.
pub const BOOT_INFO_ADDR: u64 = 0x6000;

/// Magic value ("NAFI") that opens a valid block.
pub const BOOT_INFO_MAGIC: u32 = 0x4E41_4649;

/// Boot type of a BIOS/MBR boot ("BIOS").
pub const BOOT_TYPE_BIOS: u32 = 0x4249_4F53;

/// Boot type of a UEFI boot ("UEFI").
pub const BOOT_TYPE_UEFI: u32 = 0x5545_4649;

/// What the kernel keeps of the boot information block.
#[derive(Clone, Copy, Debug)]
pub struct BootInfo {
    pub boot_type: u32,
    pub rsdp_addr: u64,
    pub mem_entry_count: u32,
}

impl BootInfo {
    /// Nothing known yet: all zero.
    pub fn new() -> (r: BootInfo)
        ensures
            r.boot_type == 0 && r.rsdp_addr == 0 && r.mem_entry_count == 0,
    {
        BootInfo { boot_type: 0, rsdp_addr: 0, mem_entry_count: 0 }
    }

    /// Take the block's fields (boot type at +4, RSDP at +8, entry count at
    /// +0x10) when its first word is the magic value; otherwise keep what
    /// is known.
    pub fn init(&mut self, magic: u32, boot_type: u32, rsdp_addr: u64, mem_entry_count: u32)
        ensures
            magic == BOOT_INFO_MAGIC ==> *final(self) == (BootInfo { boot_type, rsdp_addr, mem_entry_count }),
            magic != BOOT_INFO_MAGIC ==> *final(self) == *old(self),
    {
        if magic != BOOT_INFO_MAGIC {
            return;
        }
        self.boot_type = boot_type;
        self.rsdp_addr = rsdp_addr;
        self.mem_entry_count = mem_entry_count;
    }

    /// The boot type.
    pub fn get_boot_type(&self) -> (r: u32)
        ensures
            r == self.boot_type,
    {
        self.boot_type
    }

    /// Whether the machine booted through UEFI.
    pub fn is_uefi_boot(&self) -> (r: bool)
        ensures
            r == (self.boot_type == BOOT_TYPE_UEFI),
    {
        self.boot_type == BOOT_TYPE_UEFI
    }

    /// Whether the machine booted through the BIOS.
    pub fn is_bios_boot(&self) -> (r: bool)
        ensures
            r == (self.boot_type == BOOT_TYPE_BIOS),
    {
        self.boot_type == BOOT_TYPE_BIOS
    }

    /// Physical address of the ACPI RSDP.
    pub fn get_rsdp_addr(&self) -> (r: u64)
        ensures
            r == self.rsdp_addr,
    {
        self.rsdp_addr
    }

    /// Number of memory-map entries.
    pub fn get_mem_entry_count(&self) -> (r: u32)
        ensures
            r == self.mem_entry_count,
    {
        self.mem_entry_count
    }

    /// The boot type for display.
    pub fn boot_type_str(&self) -> (r: &'static str)
        ensures
            r@ == boot_type_name(self.boot_type),
    {
        if self.boot_type == BOOT_TYPE_UEFI {
            "UEFI"
        } else if self.boot_type == BOOT_TYPE_BIOS {
            "BIOS/MBR"
        } else {
            "Unknown"
        }
    }
}

/// Display name of boot type `t`.
pub open spec fn boot_type_name(t: u32) -> Seq<char> {
    if t == BOOT_TYPE_UEFI {
        "UEFI"@
    } else if t == BOOT_TYPE_BIOS {
        "BIOS/MBR"@
    } else {
        "Unknown"@
    }
}

} // verus!
