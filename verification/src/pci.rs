//! PCI: device addresses, configuration-space encoding, BAR decoding, the
//! capability list, device descriptions and the table of discovered devices.
//!
//! Configuration space is read by the caller; the functions here work on the
//! values read: a 32-bit register, or a function's 256-byte header as bytes.
use vstd::prelude::*;

verus! {

pub const PCI_VENDOR_ID: u8 = 0x00;
pub const PCI_DEVICE_ID: u8 = 0x02;
pub const PCI_COMMAND: u8 = 0x04;
pub const PCI_STATUS: u8 = 0x06;
pub const PCI_REVISION_ID: u8 = 0x08;
pub const PCI_PROG_IF: u8 = 0x09;
pub const PCI_SUBCLASS: u8 = 0x0A;
pub const PCI_CLASS: u8 = 0x0B;
pub const PCI_CACHE_LINE_SIZE: u8 = 0x0C;
pub const PCI_LATENCY_TIMER: u8 = 0x0D;
pub const PCI_HEADER_TYPE: u8 = 0x0E;
pub const PCI_BIST: u8 = 0x0F;
pub const PCI_BAR0: u8 = 0x10;
pub const PCI_BAR1: u8 = 0x14;
pub const PCI_BAR2: u8 = 0x18;
pub const PCI_BAR3: u8 = 0x1C;
pub const PCI_BAR4: u8 = 0x20;
pub const PCI_BAR5: u8 = 0x24;
pub const PCI_CARDBUS_CIS: u8 = 0x28;
pub const PCI_SUBSYSTEM_VENDOR_ID: u8 = 0x2C;
pub const PCI_SUBSYSTEM_ID: u8 = 0x2E;
pub const PCI_EXPANSION_ROM_BASE: u8 = 0x30;
pub const PCI_CAPABILITIES_PTR: u8 = 0x34;
pub const PCI_INTERRUPT_LINE: u8 = 0x3C;
pub const PCI_INTERRUPT_PIN: u8 = 0x3D;
pub const PCI_MIN_GRANT: u8 = 0x3E;
pub const PCI_MAX_LATENCY: u8 = 0x3F;

pub const PCI_COMMAND_IO_SPACE: u16 = 0x0001;
pub const PCI_COMMAND_MEMORY_SPACE: u16 = 0x0002;
pub const PCI_COMMAND_BUS_MASTER: u16 = 0x0004;
pub const PCI_COMMAND_SPECIAL_CYCLES: u16 = 0x0008;
pub const PCI_COMMAND_MWI_ENABLE: u16 = 0x0010;
pub const PCI_COMMAND_VGA_PALETTE_SNOOP: u16 = 0x0020;
pub const PCI_COMMAND_PARITY_ERROR_RESPONSE: u16 = 0x0040;
pub const PCI_COMMAND_SERR_ENABLE: u16 = 0x0100;
pub const PCI_COMMAND_FAST_B2B_ENABLE: u16 = 0x0200;
pub const PCI_COMMAND_INTERRUPT_DISABLE: u16 = 0x0400;

pub const PCI_STATUS_INTERRUPT: u16 = 0x0008;
pub const PCI_STATUS_CAPABILITIES_LIST: u16 = 0x0010;
pub const PCI_STATUS_66MHZ_CAPABLE: u16 = 0x0020;
pub const PCI_STATUS_FAST_B2B_CAPABLE: u16 = 0x0080;
pub const PCI_STATUS_MASTER_DATA_PARITY_ERROR: u16 = 0x0100;
pub const PCI_STATUS_DEVSEL_TIMING: u16 = 0x0600;
pub const PCI_STATUS_SIGNALED_TARGET_ABORT: u16 = 0x0800;
pub const PCI_STATUS_RECEIVED_TARGET_ABORT: u16 = 0x1000;
pub const PCI_STATUS_RECEIVED_MASTER_ABORT: u16 = 0x2000;
pub const PCI_STATUS_SIGNALED_SYSTEM_ERROR: u16 = 0x4000;
pub const PCI_STATUS_DETECTED_PARITY_ERROR: u16 = 0x8000;

pub const PCI_CAP_ID_PM: u8 = 0x01;
pub const PCI_CAP_ID_AGP: u8 = 0x02;
pub const PCI_CAP_ID_VPD: u8 = 0x03;
pub const PCI_CAP_ID_SLOTID: u8 = 0x04;
pub const PCI_CAP_ID_MSI: u8 = 0x05;
pub const PCI_CAP_ID_CHSWP: u8 = 0x06;
pub const PCI_CAP_ID_PCIX: u8 = 0x07;
pub const PCI_CAP_ID_HT: u8 = 0x08;
pub const PCI_CAP_ID_VNDR: u8 = 0x09;
pub const PCI_CAP_ID_DBG: u8 = 0x0A;
pub const PCI_CAP_ID_CCRC: u8 = 0x0B;
pub const PCI_CAP_ID_SHPC: u8 = 0x0C;
pub const PCI_CAP_ID_SSVID: u8 = 0x0D;
pub const PCI_CAP_ID_AGP3: u8 = 0x0E;
pub const PCI_CAP_ID_EXP: u8 = 0x10;
pub const PCI_CAP_ID_MSIX: u8 = 0x11;
pub const PCI_CAP_ID_AF: u8 = 0x13;

pub const PCI_HEADER_TYPE_NORMAL: u8 = 0x00;
pub const PCI_HEADER_TYPE_BRIDGE: u8 = 0x01;
pub const PCI_HEADER_TYPE_CARDBUS: u8 = 0x02;
pub const PCI_HEADER_TYPE_MULTI_FUNCTION: u8 = 0x80;

/// Vendor ID read from an empty slot.
pub const PCI_VENDOR_ID_INVALID: u16 = 0xFFFF;

/// Size in bytes of a function's configuration header.
pub const PCI_CONFIG_SPACE_SIZE: usize = 256;

/// Most devices the device table holds.
pub const MAX_PCI_DEVICES: usize = 256;

/// Most capability-list links followed before the walk gives up.
pub const MAX_CAPABILITY_LINKS: u8 = 48;

/// Bounds of the small fields taken from a byte.
proof fn lemma_u8_fields(x: u8)
    by (bit_vector)
    ensures
        x & 0x1F < 32,
        x & 0x07 < 8,
        x & 2 <= 2,
        x & 2 == 0 || x & 2 == 2,
        (x ^ 2) & 2 == 2 - (x & 2),
        x & 3 <= 3,
        (x & 0xFC) % 4 == 0,
{
}

/// Shifting a byte-sized value left multiplies it.
proof fn lemma_ecam_shifts(v: u64)
    by (bit_vector)
    requires
        v < 256,
    ensures
        v << 20u64 == v * 0x10_0000,
        v << 15u64 == v * 0x8000,
        v << 12u64 == v * 0x1000,
{
}

/// Bus, device (5 bits) and function (3 bits) of a PCI function.
#[derive(Clone, Copy, Debug, PartialEq, Eq, Structural)]
pub struct PciAddress {
    pub bus: u8,
    pub device: u8,
    pub function: u8,
}

/// The value written to port 0xCF8 to select register `offset` (rounded
/// down to a multiple of 4) of the function at `bus`, `device`, `function`.
pub open spec fn config_address_of(bus: u8, device: u8, function: u8, offset: u8) -> u32 {
    0x8000_0000u32 | ((bus as u32) << 16u32) | ((device as u32) << 11u32) | ((function as u32) << 8u32)
        | ((offset & 0xFC) as u32)
}

/// The memory-mapped (ECAM) address of byte `offset` of the function at
/// `bus`, `device`, `function`, for an ECAM window at `ecam_base`.
pub open spec fn ecam_address_of(ecam_base: u64, bus: u8, device: u8, function: u8, offset: u16) -> int {
    ecam_base + bus * 0x10_0000 + device * 0x8000 + function * 0x1000 + offset
}

impl PciAddress {
    /// The address of `function` of `device` on `bus`; the device number is
    /// cut to 5 bits and the function number to 3.
    pub fn new(bus: u8, device: u8, function: u8) -> (r: PciAddress)
        ensures
            r.bus == bus,
            r.device == device & 0x1F,
            r.function == function & 0x07,
            r.device < 32 && r.function < 8,
    {
        proof {
            lemma_u8_fields(device);
            lemma_u8_fields(function);
        }
        PciAddress { bus, device: device & 0x1F, function: function & 0x07 }
    }

    /// The port-0xCF8 selector of register `offset` of this function.
    pub fn config_address(&self, offset: u8) -> (r: u32)
        ensures
            r == config_address_of(self.bus, self.device, self.function, offset),
    {
        let offset = offset & 0xFC;
        0x8000_0000u32 | ((self.bus as u32) << 16u32) | ((self.device as u32) << 11u32) | ((
        self.function as u32) << 8u32) | (offset as u32)
    }

    /// The ECAM address of byte `offset` of this function.
    pub fn ecam_address(&self, ecam_base: u64, offset: u16) -> (r: u64)
        requires
            ecam_address_of(ecam_base, self.bus, self.device, self.function, offset) <= u64::MAX,
        ensures
            r == ecam_address_of(ecam_base, self.bus, self.device, self.function, offset),
    {
        let b = self.bus as u64;
        let d = self.device as u64;
        let f = self.function as u64;
        proof {
            lemma_ecam_shifts(b);
            lemma_ecam_shifts(d);
            lemma_ecam_shifts(f);
        }
        ecam_base + (b << 20u64) + (d << 15u64) + (f << 12u64) + (offset as u64)
    }
}

/// The 16-bit half of configuration register `dword` that a 16-bit read at
/// `offset` returns: the upper half when bit 1 of `offset` is set.
pub open spec fn config_half(dword: u32, offset: u8) -> u16 {
    ((dword >> (((offset & 2) as u32) * 8)) & 0xFFFF) as u16
}

/// The byte of configuration register `dword` that an 8-bit read at
/// `offset` returns: byte `offset & 3`.
pub open spec fn config_byte(dword: u32, offset: u8) -> u8 {
    ((dword >> (((offset & 3) as u32) * 8)) & 0xFF) as u8
}

/// The part of a 16-bit configuration read at `offset` that follows the
/// read of the register: the half of `dword` it selects.
pub fn config_read16_from(dword: u32, offset: u8) -> (r: u16)
    ensures
        r == config_half(dword, offset),
{
    proof {
        lemma_u8_fields(offset);
    }
    ((dword >> (((offset & 2) as u32) * 8)) & 0xFFFF) as u16
}

/// The part of an 8-bit configuration read at `offset` that follows the
/// read of the register: the byte of `dword` it selects.
pub fn config_read8_from(dword: u32, offset: u8) -> (r: u8)
    ensures
        r == config_byte(dword, offset),
{
    proof {
        lemma_u8_fields(offset);
    }
    ((dword >> (((offset & 3) as u32) * 8)) & 0xFF) as u8
}

/// The register a 16-bit configuration write of `value` at `offset` stores,
/// given the register's current value `dword`: the selected half replaced.
pub fn config_merge16(dword: u32, offset: u8, value: u16) -> (r: u32)
    ensures
        config_half(r, offset) == value,
        config_half(r, offset ^ 2) == config_half(dword, offset ^ 2),
{
    proof {
        lemma_u8_fields(offset);
    }
    let shift: u32 = ((offset & 2) as u32) * 8;
    let mask: u32 = !(0xFFFFu32 << shift);
    let r = (dword & mask) | ((value as u32) << shift);
    if offset & 2 == 0 {
        assert(((r >> 0u32) & 0xFFFF) as u16 == value && ((r >> 16u32) & 0xFFFF) as u16 == ((dword
            >> 16u32) & 0xFFFF) as u16) by (bit_vector)
            requires
                r == (dword & !(0xFFFFu32 << 0u32)) | ((value as u32) << 0u32),
        ;
    } else {
        assert(((r >> 16u32) & 0xFFFF) as u16 == value && ((r >> 0u32) & 0xFFFF) as u16 == ((dword
            >> 0u32) & 0xFFFF) as u16) by (bit_vector)
            requires
                r == (dword & !(0xFFFFu32 << 16u32)) | ((value as u32) << 16u32),
        ;
    }
    r
}

/// The register an 8-bit configuration write of `value` at `offset` stores,
/// given the register's current value `dword`: the selected byte replaced.
pub fn config_merge8(dword: u32, offset: u8, value: u8) -> (r: u32)
    ensures
        config_byte(r, offset) == value,
        forall|other: u8| #![auto] other & 3 != offset & 3 ==> config_byte(r, other) == config_byte(dword, other),
{
    proof {
        lemma_u8_fields(offset);
    }
    let shift: u32 = ((offset & 3) as u32) * 8;
    let mask: u32 = !(0xFFu32 << shift);
    let r = (dword & mask) | ((value as u32) << shift);
    let k = offset & 3;
    assert(((r >> ((k as u32) * 8)) & 0xFF) as u8 == value) by (bit_vector)
        requires
            k < 4,
            r == (dword & !(0xFFu32 << ((k as u32) * 8))) | ((value as u32) << ((k as u32) * 8)),
    ;
    assert forall|other: u8| #![auto] other & 3 != offset & 3 implies config_byte(r, other) == config_byte(
        dword,
        other,
    ) by {
        let j = other & 3;
        lemma_u8_fields(other);
        assert(((r >> ((j as u32) * 8)) & 0xFF) as u8 == ((dword >> ((j as u32) * 8)) & 0xFF) as u8)
            by (bit_vector)
            requires
                k < 4,
                j < 4,
                j != k,
                r == (dword & !(0xFFu32 << ((k as u32) * 8))) | ((value as u32) << ((k as u32) * 8)),
        ;
    }
    r
}

/// What a BAR register holds.
#[derive(Clone, Copy, Debug, PartialEq, Eq, Structural)]
pub enum BarType {
    IoSpace,
    Memory32,
    Memory64,
    /// No BAR: the register is absent or reads as zero.
    NotPresent,
}

/// A decoded base address register.
#[derive(Clone, Copy, Debug)]
pub struct Bar {
    pub bar_type: BarType,
    pub base_address: u64,
    pub size: u64,
    pub prefetchable: bool,
}

/// The absent BAR.
pub open spec fn no_bar() -> Bar {
    Bar { bar_type: BarType::NotPresent, base_address: 0, size: 0, prefetchable: false }
}

impl Bar {
    /// The absent BAR.
    pub fn none() -> (r: Bar)
        ensures
            r == no_bar(),
    {
        Bar { bar_type: BarType::NotPresent, base_address: 0, size: 0, prefetchable: false }
    }
}

/// Which registers decoding a BAR needs besides its own value.
#[derive(Clone, Copy, Debug, PartialEq, Eq, Structural)]
pub enum BarLayout {
    /// Out of range, zero, or of a reserved memory type: the BAR is absent.
    Absent,
    /// An I/O BAR: its size probe is needed.
    Io,
    /// A 32-bit memory BAR: its size probe is needed.
    Memory32,
    /// A 64-bit memory BAR: the next register and both size probes are
    /// needed.
    Memory64,
}

/// The layout of BAR `bar_index` holding `bar_value`.
pub open spec fn bar_layout_of(bar_index: u8, bar_value: u32) -> BarLayout {
    if bar_index >= 6 || bar_value == 0 {
        BarLayout::Absent
    } else if bar_value & 1 != 0 {
        BarLayout::Io
    } else if (bar_value >> 1u32) & 3 == 0 {
        BarLayout::Memory32
    } else if (bar_value >> 1u32) & 3 == 2 && bar_index < 5 {
        BarLayout::Memory64
    } else {
        BarLayout::Absent
    }
}

/// The layout of BAR `bar_index` holding `bar_value`.
pub fn bar_layout(bar_index: u8, bar_value: u32) -> (r: BarLayout)
    ensures
        r == bar_layout_of(bar_index, bar_value),
{
    if bar_index >= 6 || bar_value == 0 {
        BarLayout::Absent
    } else if bar_value & 1 != 0 {
        BarLayout::Io
    } else {
        let kind = (bar_value >> 1u32) & 3;
        if kind == 0 {
            BarLayout::Memory32
        } else if kind == 2 && bar_index < 5 {
            BarLayout::Memory64
        } else {
            BarLayout::Absent
        }
    }
}

/// Configuration offset of BAR `bar_index`.
pub fn bar_offset(bar_index: u8) -> (r: u8)
    requires
        bar_index < 6,
    ensures
        r == PCI_BAR0 + 4 * bar_index,
{
    PCI_BAR0 + bar_index * 4
}

/// The size a 32-bit BAR's probe `mask` gives: the two's complement of the
/// mask, taken in 32 bits (0 for an all-zero probe, where it wraps).
pub open spec fn probe_size32(mask: u32) -> u64 {
    if mask == 0 {
        0
    } else {
        (!mask + 1) as u64
    }
}

/// The size of a region whose size probe reads back `mask` (address bits
/// only): the two's complement of the mask (0 for an all-zero probe, where
/// it wraps).
pub open spec fn probe_size(mask: u64) -> u64 {
    if mask == 0 {
        0
    } else {
        (0x1_0000_0000_0000_0000int - mask) as u64
    }
}

/// The two's complement of `mask`, wrapping past the top.
fn negate64(mask: u64) -> (r: u64)
    ensures
        r == probe_size(mask),
{
    if mask == 0 {
        0
    } else {
        proof {
            lemma_not_plus_one(mask);
        }
        !mask + 1
    }
}

proof fn lemma_not_plus_one(x: u64)
    requires
        x != 0,
    ensures
        !x + 1 == 0x1_0000_0000_0000_0000int - x,
{
    assert(!x == 0xFFFF_FFFF_FFFF_FFFFu64 - x) by (bit_vector);
}

/// The BAR that register `bar_index`, holding `bar_value`, describes, given
/// the next register `bar_high` (64-bit BARs) and what the size probes read
/// back (`size_mask_low`, and `size_mask_high` for 64-bit BARs).
pub open spec fn decoded_bar(
    bar_index: u8,
    bar_value: u32,
    bar_high: u32,
    size_mask_low: u32,
    size_mask_high: u32,
) -> Bar {
    match bar_layout_of(bar_index, bar_value) {
        BarLayout::Absent => no_bar(),
        BarLayout::Io => Bar {
            bar_type: BarType::IoSpace,
            base_address: (bar_value & 0xFFFF_FFFC) as u64,
            size: probe_size((size_mask_low & 0xFFFF_FFFC) as u64) & 0xFFFF,
            prefetchable: false,
        },
        BarLayout::Memory32 => Bar {
            bar_type: BarType::Memory32,
            base_address: (bar_value & 0xFFFF_FFF0) as u64,
            size: probe_size32(size_mask_low & 0xFFFF_FFF0),
            prefetchable: bar_value & 0x08 != 0,
        },
        BarLayout::Memory64 => Bar {
            bar_type: BarType::Memory64,
            base_address: ((bar_high as u64) << 32u64) | ((bar_value & 0xFFFF_FFF0) as u64),
            size: probe_size(((size_mask_high as u64) << 32u64) | ((size_mask_low & 0xFFFF_FFF0) as u64)),
            prefetchable: bar_value & 0x08 != 0,
        },
    }
}

/// Decode BAR `bar_index` from the registers the probe read: the part of
/// reading a BAR that follows the configuration accesses.
pub fn decode_bar(
    bar_index: u8,
    bar_value: u32,
    bar_high: u32,
    size_mask_low: u32,
    size_mask_high: u32,
) -> (r: Bar)
    ensures
        r == decoded_bar(bar_index, bar_value, bar_high, size_mask_low, size_mask_high),
{
    match bar_layout(bar_index, bar_value) {
        BarLayout::Absent => Bar::none(),
        BarLayout::Io => {
            let mask = (size_mask_low & 0xFFFF_FFFC) as u64;
            let size = negate64(mask);
            Bar {
                bar_type: BarType::IoSpace,
                base_address: (bar_value & 0xFFFF_FFFC) as u64,
                size: size & 0xFFFF,
                prefetchable: false,
            }
        },
        BarLayout::Memory32 => {
            let mask = size_mask_low & 0xFFFF_FFF0;
            assert(mask != 0 ==> !mask < 0xFFFF_FFFFu32) by (bit_vector);
            let size: u64 = if mask == 0 {
                0
            } else {
                (!mask + 1) as u64
            };
            Bar {
                bar_type: BarType::Memory32,
                base_address: (bar_value & 0xFFFF_FFF0) as u64,
                size,
                prefetchable: (bar_value & 0x08) != 0,
            }
        },
        BarLayout::Memory64 => {
            let low = (size_mask_low & 0xFFFF_FFF0) as u64;
            let high = size_mask_high as u64;
            let mask = (high << 32u64) | low;
            Bar {
                bar_type: BarType::Memory64,
                base_address: ((bar_high as u64) << 32u64) | ((bar_value & 0xFFFF_FFF0) as u64),
                size: negate64(mask),
                prefetchable: (bar_value & 0x08) != 0,
            }
        },
    }
}

/// The little-endian 16-bit field at `offset` of configuration header `cfg`.
pub open spec fn cfg16(cfg: Seq<u8>, offset: int) -> u16 {
    (cfg[offset] as u16) | ((cfg[offset + 1] as u16) << 8u16)
}

fn read16(config: &Vec<u8>, offset: usize) -> (r: u16)
    requires
        offset + 1 < config.len(),
    ensures
        r == cfg16(config@, offset as int),
{
    (config[offset] as u16) | ((config[offset + 1] as u16) << 8u16)
}

/// The capability with ID `cap_id` in the list that starts at `offset`,
/// following at most `links` links; each entry holds its ID and, in the next
/// byte, the offset of the next (low two bits cleared; 0 ends the list).
pub open spec fn capability_in_chain(cfg: Seq<u8>, offset: u8, cap_id: u8, links: nat) -> Option<u8>
    decreases links,
{
    if offset == 0 || links == 0 {
        None
    } else if cfg[offset as int] == cap_id {
        Some(offset)
    } else {
        capability_in_chain(cfg, cfg[offset + 1] & 0xFC, cap_id, (links - 1) as nat)
    }
}

/// Whether the header says the function has a capability list.
pub open spec fn has_capability_list(cfg: Seq<u8>) -> bool {
    cfg16(cfg, PCI_STATUS as int) & PCI_STATUS_CAPABILITIES_LIST != 0
}

/// The first entry of the capability list.
pub open spec fn first_capability(cfg: Seq<u8>) -> u8 {
    cfg[PCI_CAPABILITIES_PTR as int] & 0xFC
}

/// The offset of capability `cap_id` in header `cfg`, as the walk finds it.
pub open spec fn capability_offset(cfg: Seq<u8>, cap_id: u8) -> Option<u8> {
    if !has_capability_list(cfg) {
        None
    } else {
        capability_in_chain(cfg, first_capability(cfg), cap_id, MAX_CAPABILITY_LINKS as nat)
    }
}

/// Find capability `cap_id` in the configuration header `config` of a
/// function: `None` without a capability list or when 48 links pass without
/// it.
pub fn pci_find_capability(config: &Vec<u8>, cap_id: u8) -> (r: Option<u8>)
    requires
        config.len() == PCI_CONFIG_SPACE_SIZE,
    ensures
        r == capability_offset(config@, cap_id),
        r matches Some(off) ==> off != 0 && off % 4 == 0 && config@[off as int] == cap_id,
{
    let status = read16(config, PCI_STATUS as usize);
    if status & PCI_STATUS_CAPABILITIES_LIST == 0 {
        return None;
    }
    let mut cap_offset: u8 = config[PCI_CAPABILITIES_PTR as usize] & 0xFC;
    let mut iterations: u8 = 0;
    proof {
        lemma_u8_fields(config@[PCI_CAPABILITIES_PTR as int]);
    }
    while cap_offset != 0 && iterations < MAX_CAPABILITY_LINKS
        invariant
            config.len() == PCI_CONFIG_SPACE_SIZE,
            iterations <= MAX_CAPABILITY_LINKS,
            cap_offset % 4 == 0,
            has_capability_list(config@),
            capability_offset(config@, cap_id) == capability_in_chain(
                config@,
                cap_offset,
                cap_id,
                (MAX_CAPABILITY_LINKS - iterations) as nat,
            ),
        decreases MAX_CAPABILITY_LINKS - iterations,
    {
        let current_id = config[cap_offset as usize];
        if current_id == cap_id {
            return Some(cap_offset);
        }
        let next = config[cap_offset as usize + 1];
        cap_offset = next & 0xFC;
        proof {
            lemma_u8_fields(next);
        }
        iterations = iterations + 1;
    }
    None
}

/// One entry of a capability list.
#[derive(Clone, Copy, Debug)]
pub struct Capability {
    pub id: u8,
    pub offset: u8,
}

/// A walk over the capability list of a configuration header.
pub struct CapabilityIterator {
    pub config: Vec<u8>,
    pub next_offset: u8,
    pub iterations: u8,
}

impl CapabilityIterator {
    /// A walk from the first entry; `None` without a capability list.
    pub fn new(config: Vec<u8>) -> (r: Option<CapabilityIterator>)
        requires
            config.len() == PCI_CONFIG_SPACE_SIZE,
        ensures
            has_capability_list(config@) <==> r is Some,
            r matches Some(it) ==> it.config@ == config@ && it.next_offset == first_capability(config@)
                && it.iterations == 0 && it.next_offset % 4 == 0,
    {
        let status = read16(&config, PCI_STATUS as usize);
        if status & PCI_STATUS_CAPABILITIES_LIST == 0 {
            return None;
        }
        let ptr = config[PCI_CAPABILITIES_PTR as usize];
        let first = ptr & 0xFC;
        proof {
            lemma_u8_fields(ptr);
        }
        Some(CapabilityIterator { config, next_offset: first, iterations: 0 })
    }

    /// The next entry, and advance past it; `None` at the end of the list or
    /// after 48 entries.
    pub fn next(&mut self) -> (r: Option<Capability>)
        requires
            old(self).config.len() == PCI_CONFIG_SPACE_SIZE,
            old(self).next_offset % 4 == 0,
        ensures
            final(self).config@ == old(self).config@,
            final(self).next_offset % 4 == 0,
            old(self).next_offset == 0 || old(self).iterations >= MAX_CAPABILITY_LINKS ==> r is None
                && *final(self) == *old(self),
            old(self).next_offset != 0 && old(self).iterations < MAX_CAPABILITY_LINKS ==> {
                &&& r == Some(
                    Capability {
                        id: old(self).config@[old(self).next_offset as int],
                        offset: old(self).next_offset,
                    },
                )
                &&& final(self).next_offset == old(self).config@[old(self).next_offset + 1] & 0xFC
                &&& final(self).iterations == old(self).iterations + 1
            },
    {
        if self.next_offset == 0 || self.iterations >= MAX_CAPABILITY_LINKS {
            return None;
        }
        self.iterations = self.iterations + 1;
        let off = self.next_offset;
        let cap_id = self.config[off as usize];
        let link = self.config[off as usize + 1];
        self.next_offset = link & 0xFC;
        proof {
            lemma_u8_fields(link);
        }
        Some(Capability { id: cap_id, offset: off })
    }
}

/// What the kernel keeps of a discovered PCI function.
#[derive(Clone, Copy, Debug)]
pub struct PciDevice {
    pub address: PciAddress,
    pub vendor_id: u16,
    pub device_id: u16,
    pub class_code: u8,
    pub subclass: u8,
    pub prog_if: u8,
    pub revision_id: u8,
    pub header_type: u8,
    pub msi_cap_offset: u8,
    pub msix_cap_offset: u8,
}

/// The device description of the function at `addr` whose header is `cfg`.
pub open spec fn device_from_config(addr: PciAddress, cfg: Seq<u8>) -> PciDevice {
    PciDevice {
        address: addr,
        vendor_id: cfg16(cfg, PCI_VENDOR_ID as int),
        device_id: cfg16(cfg, PCI_DEVICE_ID as int),
        class_code: cfg[PCI_CLASS as int],
        subclass: cfg[PCI_SUBCLASS as int],
        prog_if: cfg[PCI_PROG_IF as int],
        revision_id: cfg[PCI_REVISION_ID as int],
        header_type: cfg[PCI_HEADER_TYPE as int],
        msi_cap_offset: match capability_offset(cfg, PCI_CAP_ID_MSI) {
            Some(o) => o,
            None => 0,
        },
        msix_cap_offset: match capability_offset(cfg, PCI_CAP_ID_MSIX) {
            Some(o) => o,
            None => 0,
        },
    }
}

impl PciDevice {
    /// Whether a function answers: its vendor ID is not all ones.
    pub fn is_present(config: &Vec<u8>) -> (r: bool)
        requires
            config.len() == PCI_CONFIG_SPACE_SIZE,
        ensures
            r == (cfg16(config@, PCI_VENDOR_ID as int) != PCI_VENDOR_ID_INVALID),
    {
        read16(config, PCI_VENDOR_ID as usize) != PCI_VENDOR_ID_INVALID
    }

    /// The description of the function at `addr` from its configuration
    /// header; `None` for an empty slot.
    pub fn read(addr: &PciAddress, config: &Vec<u8>) -> (r: Option<PciDevice>)
        requires
            config.len() == PCI_CONFIG_SPACE_SIZE,
        ensures
            cfg16(config@, PCI_VENDOR_ID as int) == PCI_VENDOR_ID_INVALID ==> r is None,
            cfg16(config@, PCI_VENDOR_ID as int) != PCI_VENDOR_ID_INVALID ==> r == Some(
                device_from_config(*addr, config@),
            ),
    {
        let vendor_id = read16(config, PCI_VENDOR_ID as usize);
        if vendor_id == PCI_VENDOR_ID_INVALID {
            return None;
        }
        let device_id = read16(config, PCI_DEVICE_ID as usize);
        let msi_cap_offset = match pci_find_capability(config, PCI_CAP_ID_MSI) {
            Some(o) => o,
            None => 0,
        };
        let msix_cap_offset = match pci_find_capability(config, PCI_CAP_ID_MSIX) {
            Some(o) => o,
            None => 0,
        };
        Some(
            PciDevice {
                address: *addr,
                vendor_id,
                device_id,
                class_code: config[PCI_CLASS as usize],
                subclass: config[PCI_SUBCLASS as usize],
                prog_if: config[PCI_PROG_IF as usize],
                revision_id: config[PCI_REVISION_ID as usize],
                header_type: config[PCI_HEADER_TYPE as usize],
                msi_cap_offset,
                msix_cap_offset,
            },
        )
    }

    /// Whether the device has more than one function.
    pub fn is_multi_function(&self) -> (r: bool)
        ensures
            r == (self.header_type & PCI_HEADER_TYPE_MULTI_FUNCTION != 0),
    {
        (self.header_type & PCI_HEADER_TYPE_MULTI_FUNCTION) != 0
    }

    /// Whether the function has an MSI capability.
    pub fn supports_msi(&self) -> (r: bool)
        ensures
            r == (self.msi_cap_offset != 0),
    {
        self.msi_cap_offset != 0
    }

    /// Whether the function has an MSI-X capability.
    pub fn supports_msix(&self) -> (r: bool)
        ensures
            r == (self.msix_cap_offset != 0),
    {
        self.msix_cap_offset != 0
    }

    /// Whether the function is a PCI-to-PCI bridge (class 0x06, subclass
    /// 0x04), behind which enumeration goes on at its secondary bus.
    pub fn is_pci_bridge(&self) -> (r: bool)
        ensures
            r == (self.class_code == 0x06 && self.subclass == 0x04),
    {
        self.class_code == 0x06 && self.subclass == 0x04
    }
}

/// The devices found by enumeration, in the order found.
pub struct PciDeviceTable {
    devices: Vec<PciDevice>,
}

impl View for PciDeviceTable {
    type V = Seq<PciDevice>;

    closed spec fn view(&self) -> Seq<PciDevice> {
        self.devices@
    }
}

impl PciDeviceTable {
    /// The empty table.
    pub fn new() -> (r: PciDeviceTable)
        ensures
            r@ == Seq::<PciDevice>::empty(),
    {
        PciDeviceTable { devices: Vec::new() }
    }

    /// Record `dev`; a full table (256 devices) stays as it is.
    pub fn add(&mut self, dev: PciDevice)
        ensures
            old(self)@.len() < MAX_PCI_DEVICES ==> final(self)@ == old(self)@.push(dev),
            old(self)@.len() >= MAX_PCI_DEVICES ==> final(self)@ == old(self)@,
    {
        if self.devices.len() < MAX_PCI_DEVICES {
            self.devices.push(dev);
        }
    }

    /// Number of devices recorded.
    pub fn pci_get_device_count(&self) -> (r: usize)
        ensures
            r == self@.len(),
    {
        self.devices.len()
    }

    /// The device recorded at `index`.
    pub fn pci_get_device(&self, index: usize) -> (r: Option<PciDevice>)
        ensures
            index < self@.len() ==> r == Some(self@[index as int]),
            index >= self@.len() ==> r is None,
    {
        if index < self.devices.len() {
            Some(self.devices[index])
        } else {
            None
        }
    }

    /// The first device recorded with `vendor_id` and `device_id`.
    pub fn pci_find_device(&self, vendor_id: u16, device_id: u16) -> (r: Option<PciDevice>)
        ensures
            r is Some <==> exists|i: int|
                0 <= i < self@.len() && self@[i].vendor_id == vendor_id && self@[i].device_id == device_id,
            r matches Some(d) ==> exists|i: int|
                0 <= i < self@.len() && self@[i] == d && d.vendor_id == vendor_id && d.device_id == device_id
                    && forall|j: int|
                    0 <= j < i ==> !(self@[j].vendor_id == vendor_id && self@[j].device_id == device_id),
    {
        let mut i: usize = 0;
        while i < self.devices.len()
            invariant
                i <= self.devices.len(),
                forall|j: int|
                    0 <= j < i ==> !(self.devices@[j].vendor_id == vendor_id && self.devices@[j].device_id
                        == device_id),
            decreases self.devices.len() - i,
        {
            let d = self.devices[i];
            if d.vendor_id == vendor_id && d.device_id == device_id {
                assert(self@[i as int] == d);
                return Some(d);
            }
            i = i + 1;
        }
        None
    }

    /// The first device recorded with `class_code` and `subclass`.
    pub fn pci_find_device_by_class(&self, class_code: u8, subclass: u8) -> (r: Option<PciDevice>)
        ensures
            r is Some <==> exists|i: int|
                0 <= i < self@.len() && self@[i].class_code == class_code && self@[i].subclass == subclass,
            r matches Some(d) ==> exists|i: int|
                0 <= i < self@.len() && self@[i] == d && d.class_code == class_code && d.subclass == subclass
                    && forall|j: int|
                    0 <= j < i ==> !(self@[j].class_code == class_code && self@[j].subclass == subclass),
    {
        let mut i: usize = 0;
        while i < self.devices.len()
            invariant
                i <= self.devices.len(),
                forall|j: int|
                    0 <= j < i ==> !(self.devices@[j].class_code == class_code && self.devices@[j].subclass
                        == subclass),
            decreases self.devices.len() - i,
        {
            let d = self.devices[i];
            if d.class_code == class_code && d.subclass == subclass {
                assert(self@[i as int] == d);
                return Some(d);
            }
            i = i + 1;
        }
        None
    }
}

/// The buses `f < n`, in order, whose host-bridge function `f` is present
/// (a multi-function host bridge has one host controller per function).
pub open spec fn present_buses(present: Seq<bool>, n: int) -> Seq<u8>
    decreases n,
{
    if n <= 0 {
        Seq::empty()
    } else {
        let p = present_buses(present, n - 1);
        if present[n - 1] {
            p.push((n - 1) as u8)
        } else {
            p
        }
    }
}

/// The buses to scan (see `present_buses`): with a multi-function host
/// bridge, one bus per present host function among the eight
/// (`host_present`); else bus 0 alone.
pub fn enumeration_buses(host_header: u8, host_present: &Vec<bool>) -> (r: Vec<u8>)
    requires
        host_present.len() == 8,
    ensures
        host_header & PCI_HEADER_TYPE_MULTI_FUNCTION == 0 ==> r@ == seq![0u8],
        host_header & PCI_HEADER_TYPE_MULTI_FUNCTION != 0 ==> r@ == present_buses(host_present@, 8),
{
    let mut r: Vec<u8> = Vec::new();
    if host_header & PCI_HEADER_TYPE_MULTI_FUNCTION == 0 {
        r.push(0);
        assert(r@ =~= seq![0u8]);
        return r;
    }
    let mut f: usize = 0;
    while f < 8
        invariant
            f <= 8,
            host_present.len() == 8,
            r@ == present_buses(host_present@, f as int),
        decreases 8 - f,
    {
        if host_present[f] {
            r.push(f as u8);
        }
        f += 1;
    }
    r
}

/// The further functions of a device to probe after function 0, whose
/// header type is `header_type`: functions 1 to 7 for a multi-function
/// device, none otherwise.
pub fn further_functions(header_type: u8) -> (r: Vec<u8>)
    ensures
        header_type & PCI_HEADER_TYPE_MULTI_FUNCTION == 0 ==> r@.len() == 0,
        header_type & PCI_HEADER_TYPE_MULTI_FUNCTION != 0 ==> r@ == Seq::new(7, |i: int| (i + 1) as u8),
{
    let mut r: Vec<u8> = Vec::new();
    if header_type & PCI_HEADER_TYPE_MULTI_FUNCTION == 0 {
        return r;
    }
    let mut f: u8 = 1;
    while f < 8
        invariant
            1 <= f <= 8,
            r@ == Seq::new((f - 1) as nat, |i: int| (i + 1) as u8),
        decreases 8 - f,
    {
        r.push(f);
        f += 1;
    }
    r
}

} // verus!
