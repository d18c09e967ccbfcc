//! Message-signalled interrupts: the x86 MSI message format, the MSI and
//! MSI-X capability registers, MSI-X table addressing, the configuration
//! writes that switch MSI and MSI-X on and off, and vector allocation.
use vstd::prelude::*;
use crate::pci::{Bar, BarType, PciDevice, PCI_COMMAND, PCI_COMMAND_INTERRUPT_DISABLE};

verus! {

/// Offsets in the MSI capability.
pub const MSI_CONTROL: u8 = 0x02;
pub const MSI_MESSAGE_ADDRESS_LOW: u8 = 0x04;
pub const MSI_MESSAGE_ADDRESS_HIGH: u8 = 0x08;
pub const MSI_MESSAGE_DATA_32: u8 = 0x08;
pub const MSI_MESSAGE_DATA_64: u8 = 0x0C;
pub const MSI_MASK_BITS_32: u8 = 0x0C;
pub const MSI_MASK_BITS_64: u8 = 0x10;
pub const MSI_PENDING_BITS_32: u8 = 0x10;
pub const MSI_PENDING_BITS_64: u8 = 0x14;

/// Bits of the MSI control register.
pub const MSI_CONTROL_ENABLE: u16 = 0x0001;
pub const MSI_CONTROL_MMC_MASK: u16 = 0x000E;
pub const MSI_CONTROL_MME_MASK: u16 = 0x0070;
pub const MSI_CONTROL_64BIT: u16 = 0x0080;
pub const MSI_CONTROL_PER_VECTOR_MASK: u16 = 0x0100;

/// Offsets in the MSI-X capability.
pub const MSIX_CONTROL: u8 = 0x02;
pub const MSIX_TABLE_OFFSET: u8 = 0x04;
pub const MSIX_PBA_OFFSET: u8 = 0x08;

/// Bits of the MSI-X control register.
pub const MSIX_CONTROL_TABLE_SIZE_MASK: u16 = 0x07FF;
pub const MSIX_CONTROL_FUNC_MASK: u16 = 0x4000;
pub const MSIX_CONTROL_ENABLE: u16 = 0x8000;

/// Mask bit of an MSI-X vector control word.
pub const MSIX_ENTRY_VECTOR_CTRL_MASK: u32 = 1;

/// BAR indicator bits of the MSI-X table and PBA registers.
pub const MSIX_TABLE_BIR_MASK: u32 = 0x07;

/// Offset bits of the MSI-X table and PBA registers.
pub const MSIX_TABLE_OFFSET_MASK: u32 = 0xFFFF_FFF8;

/// MSI messages on x86 are writes into the local APIC window.
pub const MSI_ADDRESS_BASE: u32 = 0xFEE0_0000;
pub const MSI_ADDRESS_REDIRECT_HINT: u32 = 0x08;
pub const MSI_ADDRESS_DEST_MODE_LOGICAL: u32 = 0x04;

/// Trigger bits of the MSI data word.
pub const MSI_DATA_LEVEL_ASSERT: u16 = 0x4000;
pub const MSI_DATA_TRIGGER_LEVEL: u16 = 0x8000;

/// First vector the allocator hands out (after exceptions and IRQs).
pub const FIRST_DYNAMIC_VECTOR: u8 = 48;

/// End of the vectors the allocator hands out.
pub const DYNAMIC_VECTOR_LIMIT: u8 = 224;

/// How the APIC delivers a message.
#[derive(Clone, Copy, Debug, PartialEq, Eq, Structural)]
pub enum MsiDeliveryMode {
    Fixed,
    LowestPriority,
    Smi,
    Nmi,
    Init,
    ExtInt,
}

/// The 3-bit code of a delivery mode in the data word.
pub open spec fn delivery_code(m: MsiDeliveryMode) -> u16 {
    match m {
        MsiDeliveryMode::Fixed => 0,
        MsiDeliveryMode::LowestPriority => 1,
        MsiDeliveryMode::Smi => 2,
        MsiDeliveryMode::Nmi => 4,
        MsiDeliveryMode::Init => 5,
        MsiDeliveryMode::ExtInt => 7,
    }
}

impl MsiDeliveryMode {
    /// The 3-bit code of this delivery mode.
    pub fn code(&self) -> (r: u16)
        ensures
            r == delivery_code(*self),
    {
        match self {
            MsiDeliveryMode::Fixed => 0,
            MsiDeliveryMode::LowestPriority => 1,
            MsiDeliveryMode::Smi => 2,
            MsiDeliveryMode::Nmi => 4,
            MsiDeliveryMode::Init => 5,
            MsiDeliveryMode::ExtInt => 7,
        }
    }
}

/// Whether the destination is an APIC ID or a logical set.
#[derive(Clone, Copy, Debug, PartialEq, Eq, Structural)]
pub enum MsiDestinationMode {
    Physical,
    Logical,
}

/// Edge or level triggering.
#[derive(Clone, Copy, Debug, PartialEq, Eq, Structural)]
pub enum MsiTriggerMode {
    Edge,
    Level,
}

/// One message-signalled interrupt.
#[derive(Clone, Copy, Debug)]
pub struct MsiMessage {
    pub vector: u8,
    pub dest_id: u8,
    pub delivery_mode: MsiDeliveryMode,
    pub dest_mode: MsiDestinationMode,
    pub trigger_mode: MsiTriggerMode,
    pub redirect_hint: bool,
}

/// The low address word of message `m`: the APIC window, the destination
/// in bits 12-19, the redirection hint (bit 3) and logical mode (bit 2).
pub open spec fn msi_address_low(m: MsiMessage) -> u32 {
    MSI_ADDRESS_BASE | ((m.dest_id as u32) << 12u32) | (if m.redirect_hint {
        MSI_ADDRESS_REDIRECT_HINT
    } else {
        0
    }) | (if m.dest_mode == MsiDestinationMode::Logical {
        MSI_ADDRESS_DEST_MODE_LOGICAL
    } else {
        0
    })
}

/// The data word of message `m`: the vector, the delivery mode in bits
/// 8-10, and for level triggering the trigger and assert bits.
pub open spec fn msi_data(m: MsiMessage) -> u16 {
    (m.vector as u16) | (delivery_code(m.delivery_mode) << 8u16) | (if m.trigger_mode
        == MsiTriggerMode::Level {
        MSI_DATA_TRIGGER_LEVEL | MSI_DATA_LEVEL_ASSERT
    } else {
        0
    })
}

impl MsiMessage {
    /// A fixed, physical, edge-triggered message for `vector` to APIC
    /// `dest_id`.
    pub fn new(vector: u8, dest_id: u8) -> (r: MsiMessage)
        ensures
            r == MsiMessage::new_spec(vector, dest_id),
    {
        MsiMessage {
            vector,
            dest_id,
            delivery_mode: MsiDeliveryMode::Fixed,
            dest_mode: MsiDestinationMode::Physical,
            trigger_mode: MsiTriggerMode::Edge,
            redirect_hint: false,
        }
    }

    /// A lowest-priority, logical, edge-triggered message for `vector`, with
    /// the redirection hint set.
    pub fn lowest_priority(vector: u8) -> (r: MsiMessage)
        ensures
            r == MsiMessage::lowest_priority_spec(vector),
    {
        MsiMessage {
            vector,
            dest_id: 0,
            delivery_mode: MsiDeliveryMode::LowestPriority,
            dest_mode: MsiDestinationMode::Logical,
            trigger_mode: MsiTriggerMode::Edge,
            redirect_hint: true,
        }
    }

    /// The low 32 bits of the message address.
    pub fn address_low(&self) -> (r: u32)
        ensures
            r == msi_address_low(*self),
    {
        let mut addr = MSI_ADDRESS_BASE | ((self.dest_id as u32) << 12u32);
        let hint: u32 = if self.redirect_hint {
            MSI_ADDRESS_REDIRECT_HINT
        } else {
            0
        };
        let logical: u32 = match self.dest_mode {
            MsiDestinationMode::Logical => MSI_ADDRESS_DEST_MODE_LOGICAL,
            MsiDestinationMode::Physical => 0,
        };
        addr = addr | hint;
        addr = addr | logical;
        addr
    }

    /// The high 32 bits of the message address: always 0 on x86.
    pub fn address_high(&self) -> (r: u32)
        ensures
            r == 0,
    {
        0
    }

    /// The full 64-bit message address.
    pub fn address(&self) -> (r: u64)
        ensures
            r == msi_address_low(*self) as u64,
    {
        self.address_low() as u64
    }

    /// The message data word.
    pub fn data(&self) -> (r: u16)
        ensures
            r == msi_data(*self),
    {
        let code = self.delivery_mode.code();
        let mut data: u16 = (self.vector as u16) | (code << 8u16);
        let level: u16 = match self.trigger_mode {
            MsiTriggerMode::Level => MSI_DATA_TRIGGER_LEVEL | MSI_DATA_LEVEL_ASSERT,
            MsiTriggerMode::Edge => 0,
        };
        data = data | level;
        data
    }
}

/// Bounds of the fields of the MSI and MSI-X registers.
proof fn lemma_register_fields(control: u16, table_bir: u32, pba_bir: u32)
    by (bit_vector)
    ensures
        (control & 0x000E) >> 1u16 < 8,
        (control & 0x0070) >> 4u16 < 8,
        control & 0x07FF <= 0x7FF,
        table_bir & 0x07 < 8,
        pba_bir & 0x07 < 8,
{
}

/// What the MSI control register says of a function's MSI support.
#[derive(Clone, Copy, Debug)]
pub struct MsiCapability {
    pub offset: u8,
    pub max_vectors: u8,
    pub is_64bit: bool,
    pub per_vector_mask: bool,
}

/// `1 << e` for a 3-bit exponent.
pub open spec fn vectors_of(e: u16) -> u8 {
    (1u8 << (e as u8)) as u8
}

impl MsiCapability {
    /// The capability at `offset` whose control register reads `control`:
    /// up to `1 << MMC` vectors (MMC in bits 1-3), 64-bit addressing (bit
    /// 7), per-vector masking (bit 8).
    pub fn read(offset: u8, control: u16) -> (r: MsiCapability)
        ensures
            r.offset == offset,
            r.max_vectors == vectors_of((control & MSI_CONTROL_MMC_MASK) >> 1u16),
            r.is_64bit == (control & MSI_CONTROL_64BIT != 0),
            r.per_vector_mask == (control & MSI_CONTROL_PER_VECTOR_MASK != 0),
    {
        let mmc = (control & MSI_CONTROL_MMC_MASK) >> 1u16;
        proof {
            lemma_register_fields(control, 0, 0);
        }
        MsiCapability {
            offset,
            max_vectors: 1u8 << (mmc as u8),
            is_64bit: (control & MSI_CONTROL_64BIT) != 0,
            per_vector_mask: (control & MSI_CONTROL_PER_VECTOR_MASK) != 0,
        }
    }

    /// Whether the control register `control` has MSI switched on.
    pub fn is_enabled(&self, control: u16) -> (r: bool)
        ensures
            r == (control & MSI_CONTROL_ENABLE != 0),
    {
        (control & MSI_CONTROL_ENABLE) != 0
    }

    /// The number of vectors the control register `control` allocates:
    /// `1 << MME` (MME in bits 4-6).
    pub fn allocated_vectors(&self, control: u16) -> (r: u8)
        ensures
            r == vectors_of((control & MSI_CONTROL_MME_MASK) >> 4u16),
    {
        let mme = (control & MSI_CONTROL_MME_MASK) >> 4u16;
        proof {
            lemma_register_fields(control, 0, 0);
        }
        1u8 << (mme as u8)
    }
}

/// One 16-byte entry of an MSI-X table.
#[derive(Clone, Copy, Debug)]
pub struct MsixTableEntry {
    pub address_low: u32,
    pub address_high: u32,
    pub data: u32,
    pub vector_ctrl: u32,
}

impl MsixTableEntry {
    /// The unmasked entry for `msg`.
    pub fn from_message(msg: &MsiMessage) -> (r: MsixTableEntry)
        ensures
            r == (MsixTableEntry {
                address_low: msi_address_low(*msg),
                address_high: 0,
                data: msi_data(*msg) as u32,
                vector_ctrl: 0,
            }),
    {
        MsixTableEntry {
            address_low: msg.address_low(),
            address_high: msg.address_high(),
            data: msg.data() as u32,
            vector_ctrl: 0,
        }
    }

    /// The masked entry for `msg`.
    pub fn from_message_masked(msg: &MsiMessage) -> (r: MsixTableEntry)
        ensures
            r == (MsixTableEntry {
                address_low: msi_address_low(*msg),
                address_high: 0,
                data: msi_data(*msg) as u32,
                vector_ctrl: 1,
            }),
    {
        MsixTableEntry {
            address_low: msg.address_low(),
            address_high: msg.address_high(),
            data: msg.data() as u32,
            vector_ctrl: 1,
        }
    }

    /// Whether the entry's mask bit is set.
    pub fn is_masked(&self) -> (r: bool)
        ensures
            r == (self.vector_ctrl & MSIX_ENTRY_VECTOR_CTRL_MASK != 0),
    {
        (self.vector_ctrl & MSIX_ENTRY_VECTOR_CTRL_MASK) != 0
    }
}

/// What the MSI-X capability registers say: the table's size, and the BAR
/// and offset of the table and of the pending-bit array.
#[derive(Clone, Copy, Debug)]
pub struct MsixCapability {
    pub offset: u8,
    pub table_size: u16,
    pub table_bar: u8,
    pub table_offset: u32,
    pub pba_bar: u8,
    pub pba_offset: u32,
}

impl MsixCapability {
    /// The capability at `offset` whose control, table and PBA registers
    /// read `control`, `table_bir` and `pba_bir`: a table of N + 1 entries
    /// (N in bits 0-10); each location a BAR index (bits 0-2) and an
    /// 8-byte-aligned offset (the rest).
    pub fn read(offset: u8, control: u16, table_bir: u32, pba_bir: u32) -> (r: MsixCapability)
        ensures
            r.offset == offset,
            r.table_size == (control & MSIX_CONTROL_TABLE_SIZE_MASK) + 1,
            r.table_bar == (table_bir & MSIX_TABLE_BIR_MASK) as u8,
            r.table_offset == table_bir & MSIX_TABLE_OFFSET_MASK,
            r.pba_bar == (pba_bir & MSIX_TABLE_BIR_MASK) as u8,
            r.pba_offset == pba_bir & MSIX_TABLE_OFFSET_MASK,
            1 <= r.table_size <= 2048,
    {
        let n = control & MSIX_CONTROL_TABLE_SIZE_MASK;
        proof {
            lemma_register_fields(control, table_bir, pba_bir);
        }
        MsixCapability {
            offset,
            table_size: n + 1,
            table_bar: (table_bir & MSIX_TABLE_BIR_MASK) as u8,
            table_offset: table_bir & MSIX_TABLE_OFFSET_MASK,
            pba_bar: (pba_bir & MSIX_TABLE_BIR_MASK) as u8,
            pba_offset: pba_bir & MSIX_TABLE_OFFSET_MASK,
        }
    }

    /// Whether the control register `control` has MSI-X switched on.
    pub fn is_enabled(&self, control: u16) -> (r: bool)
        ensures
            r == (control & MSIX_CONTROL_ENABLE != 0),
    {
        (control & MSIX_CONTROL_ENABLE) != 0
    }

    /// Whether the control register `control` masks the whole function.
    pub fn is_function_masked(&self, control: u16) -> (r: bool)
        ensures
            r == (control & MSIX_CONTROL_FUNC_MASK != 0),
    {
        (control & MSIX_CONTROL_FUNC_MASK) != 0
    }
}

/// Where a function's MSI-X table and pending-bit array are mapped.
#[derive(Clone, Copy, Debug)]
pub struct MsixController {
    pub capability: MsixCapability,
    pub table_addr: u64,
    pub pba_addr: u64,
}

/// Whether a BAR can hold an MSI-X structure: a memory BAR.
pub open spec fn is_memory_bar(b: Bar) -> bool {
    b.bar_type == BarType::Memory32 || b.bar_type == BarType::Memory64
}

fn memory_bar(b: &Bar) -> (r: bool)
    ensures
        r == is_memory_bar(*b),
{
    match b.bar_type {
        BarType::Memory32 | BarType::Memory64 => true,
        _ => false,
    }
}

/// The BAR the pending-bit array lives in: the table's BAR when both use the
/// same index, else the one read for it.
pub open spec fn pba_bar_of(cap: MsixCapability, table_bar: Bar, pba_bar: Bar) -> Bar {
    if cap.pba_bar == cap.table_bar {
        table_bar
    } else {
        pba_bar
    }
}

impl MsixController {
    /// The controller of `device`, with capability `cap`, whose table BAR
    /// decodes to `table_bar` and whose PBA BAR decodes to `pba_bar` (the
    /// same BAR when `cap` gives one index for both): `None` without MSI-X
    /// or when either structure is not in a memory BAR.
    pub fn new(device: &PciDevice, cap: MsixCapability, table_bar: Bar, pba_bar: Bar) -> (r: Option<
        MsixController,
    >)
        requires
            table_bar.base_address + cap.table_offset <= u64::MAX,
            pba_bar_of(cap, table_bar, pba_bar).base_address + cap.pba_offset <= u64::MAX,
        ensures
            r is Some <==> device.msix_cap_offset != 0 && is_memory_bar(table_bar) && is_memory_bar(
                pba_bar_of(cap, table_bar, pba_bar),
            ),
            r matches Some(c) ==> c.capability == cap && c.table_addr == table_bar.base_address
                + cap.table_offset && c.pba_addr == pba_bar_of(cap, table_bar, pba_bar).base_address
                + cap.pba_offset,
    {
        if device.msix_cap_offset == 0 {
            return None;
        }
        if !memory_bar(&table_bar) {
            return None;
        }
        let pba = if cap.pba_bar == cap.table_bar {
            table_bar
        } else {
            if !memory_bar(&pba_bar) {
                return None;
            }
            pba_bar
        };
        Some(
            MsixController {
                capability: cap,
                table_addr: table_bar.base_address + cap.table_offset as u64,
                pba_addr: pba.base_address + cap.pba_offset as u64,
            },
        )
    }

    /// The address of table entry `index` (16 bytes each).
    pub fn entry_addr(&self, index: u16) -> (r: u64)
        requires
            self.table_addr + index * 16 <= u64::MAX,
        ensures
            r == self.table_addr + index * 16,
    {
        self.table_addr + (index as u64) * 16
    }

    /// The address of the pending-bit qword holding bit `index`.
    pub fn pba_qword_addr(&self, index: u16) -> (r: u64)
        requires
            self.pba_addr + (index / 64) * 8 <= u64::MAX,
        ensures
            r == self.pba_addr + (index / 64) * 8,
    {
        self.pba_addr + ((index as u64) / 64) * 8
    }

    /// Whether vector `index` has an interrupt pending, given the qword
    /// `pending` read at `pba_qword_addr(index)`: false past the table,
    /// else bit `index % 64` of the qword.
    pub fn msix_is_pending(&self, index: u16, pending: u64) -> (r: bool)
        ensures
            r == (index < self.capability.table_size && (pending >> ((index % 64) as u64)) & 1 == 1),
    {
        if index >= self.capability.table_size {
            return false;
        }
        let bit = (index % 64) as u64;
        assert((pending & (1u64 << bit)) != 0 <==> (pending >> bit) & 1 == 1) by (bit_vector)
            requires
                bit < 64,
        ;
        (pending & (1u64 << bit)) != 0
    }
}

/// A configuration-space write.
#[derive(Clone, Copy, Debug, PartialEq, Eq, Structural)]
pub enum ConfigWrite {
    Write16 { offset: u8, value: u16 },
    Write32 { offset: u8, value: u32 },
}

/// Vectors `msi_enable_multi` allocates for `n` requested (after the
/// device's limit): the next power of two, at least 1 and at most 32.
pub open spec fn msi_vectors_for(n: u8) -> u8 {
    if n <= 1 {
        1
    } else if n <= 2 {
        2
    } else if n <= 4 {
        4
    } else if n <= 8 {
        8
    } else if n <= 16 {
        16
    } else {
        32
    }
}

/// The multiple-message-enable exponent of `v` vectors.
pub open spec fn mme_of(v: u8) -> u16 {
    if v == 1 {
        0
    } else if v == 2 {
        1
    } else if v == 4 {
        2
    } else if v == 8 {
        3
    } else if v == 16 {
        4
    } else {
        5
    }
}

/// The writes that program MSI at capability `offset`: switch MSI off
/// (`control` without the enable bit), set the interrupt-disable bit of the
/// command register `cmd`, write the message address and data (the data at
/// 0x0C with 64-bit addressing, else at 0x08), and write the control
/// register again with MME = `mme` and MSI on.
pub open spec fn msi_program_writes(offset: u8, control: u16, cmd: u16, msg: MsiMessage, mme: u16) -> Seq<
    ConfigWrite,
> {
    let off = control & !MSI_CONTROL_ENABLE;
    let last = ConfigWrite::Write16 {
        offset: (offset + MSI_CONTROL) as u8,
        value: ((off & !MSI_CONTROL_MME_MASK) | (mme << 4u16)) | MSI_CONTROL_ENABLE,
    };
    let head = seq![
        ConfigWrite::Write16 { offset: (offset + MSI_CONTROL) as u8, value: off },
        ConfigWrite::Write16 { offset: PCI_COMMAND, value: cmd | PCI_COMMAND_INTERRUPT_DISABLE },
        ConfigWrite::Write32 {
            offset: (offset + MSI_MESSAGE_ADDRESS_LOW) as u8,
            value: msi_address_low(msg),
        },
    ];
    if control & MSI_CONTROL_64BIT != 0 {
        head + seq![
            ConfigWrite::Write32 { offset: (offset + MSI_MESSAGE_ADDRESS_HIGH) as u8, value: 0 },
            ConfigWrite::Write16 { offset: (offset + MSI_MESSAGE_DATA_64) as u8, value: msi_data(msg) },
            last,
        ]
    } else {
        head + seq![
            ConfigWrite::Write16 { offset: (offset + MSI_MESSAGE_DATA_32) as u8, value: msi_data(msg) },
            last,
        ]
    }
}

/// Whether the MSI registers at `offset` fit in configuration space for a
/// capability whose control register reads `control`.
pub open spec fn msi_registers_fit(offset: u8, control: u16) -> bool {
    offset + (if control & MSI_CONTROL_64BIT != 0 {
        MSI_MESSAGE_DATA_64
    } else {
        MSI_MESSAGE_DATA_32
    }) <= 0xFF
}

fn msi_program(offset: u8, control: u16, cmd: u16, msg: &MsiMessage, mme: u16) -> (r: Vec<ConfigWrite>)
    requires
        msi_registers_fit(offset, control),
    ensures
        r@ == msi_program_writes(offset, control, cmd, *msg, mme),
{
    let mut w: Vec<ConfigWrite> = Vec::new();
    let off = control & !MSI_CONTROL_ENABLE;
    w.push(ConfigWrite::Write16 { offset: offset + MSI_CONTROL, value: off });
    w.push(ConfigWrite::Write16 { offset: PCI_COMMAND, value: cmd | PCI_COMMAND_INTERRUPT_DISABLE });
    w.push(ConfigWrite::Write32 { offset: offset + MSI_MESSAGE_ADDRESS_LOW, value: msg.address_low() });
    if control & MSI_CONTROL_64BIT != 0 {
        w.push(ConfigWrite::Write32 { offset: offset + MSI_MESSAGE_ADDRESS_HIGH, value: msg.address_high() });
        w.push(ConfigWrite::Write16 { offset: offset + MSI_MESSAGE_DATA_64, value: msg.data() });
    } else {
        w.push(ConfigWrite::Write16 { offset: offset + MSI_MESSAGE_DATA_32, value: msg.data() });
    }
    let last = ((off & !MSI_CONTROL_MME_MASK) | (mme << 4u16)) | MSI_CONTROL_ENABLE;
    w.push(ConfigWrite::Write16 { offset: offset + MSI_CONTROL, value: last });
    let ghost expected = msi_program_writes(offset, control, cmd, *msg, mme);
    assert(w@ =~= expected);
    w
}

/// The configuration writes that switch `device` to a single MSI vector
/// delivering `message`, given its MSI control register `control` and
/// command register `cmd`; `None` (nothing written) without MSI.
pub fn msi_enable_single(device: &PciDevice, control: u16, cmd: u16, message: &MsiMessage) -> (r:
    Option<Vec<ConfigWrite>>)
    requires
        msi_registers_fit(device.msi_cap_offset, control),
    ensures
        device.msi_cap_offset == 0 <==> r is None,
        r matches Some(w) ==> w@ == msi_program_writes(device.msi_cap_offset, control, cmd, *message, 0),
{
    if device.msi_cap_offset == 0 {
        return None;
    }
    Some(msi_program(device.msi_cap_offset, control, cmd, message, 0))
}

fn vectors_for(n: u8) -> (r: (u8, u16))
    ensures
        r.0 == msi_vectors_for(n),
        r.1 == mme_of(r.0),
        r.1 < 8,
{
    if n <= 1 {
        (1, 0)
    } else if n <= 2 {
        (2, 1)
    } else if n <= 4 {
        (4, 2)
    } else if n <= 8 {
        (8, 3)
    } else if n <= 16 {
        (16, 4)
    } else {
        (32, 5)
    }
}

/// The vectors `msi_enable_multi` allocates for `requested` on a device
/// with MSI control register `control`.
pub open spec fn msi_multi_vectors(control: u16, requested: u8) -> u8 {
    let max = vectors_of((control & MSI_CONTROL_MMC_MASK) >> 1u16);
    msi_vectors_for(if requested < max {
        requested
    } else {
        max
    })
}

/// The number of vectors granted and the configuration writes that switch
/// `device` to MSI with that many vectors starting at `base_message`'s
/// (`requested`, cut to the device's limit, rounded up to a power of two,
/// at most 32), given its MSI control register `control` and command
/// register `cmd`; `(0, [])` without MSI.
pub fn msi_enable_multi(
    device: &PciDevice,
    control: u16,
    cmd: u16,
    base_message: &MsiMessage,
    requested_vectors: u8,
) -> (r: (u8, Vec<ConfigWrite>))
    requires
        msi_registers_fit(device.msi_cap_offset, control),
    ensures
        device.msi_cap_offset == 0 ==> r.0 == 0 && r.1@.len() == 0,
        device.msi_cap_offset != 0 ==> {
            &&& r.0 == msi_multi_vectors(control, requested_vectors)
            &&& r.1@ == msi_program_writes(
                device.msi_cap_offset,
                control,
                cmd,
                *base_message,
                mme_of(r.0),
            )
        },
{
    if device.msi_cap_offset == 0 {
        return (0, Vec::new());
    }
    let cap = MsiCapability::read(device.msi_cap_offset, control);
    let n = if requested_vectors < cap.max_vectors {
        requested_vectors
    } else {
        cap.max_vectors
    };
    let (vectors, mme) = vectors_for(n);
    let w = msi_program(device.msi_cap_offset, control, cmd, base_message, mme);
    (vectors, w)
}

/// The configuration writes that switch MSI off on `device` and give it its
/// legacy interrupt back, given its MSI control register `control` and
/// command register `cmd`; `None` without MSI.
pub fn msi_disable(device: &PciDevice, control: u16, cmd: u16) -> (r: Option<Vec<ConfigWrite>>)
    requires
        device.msi_cap_offset + MSI_CONTROL <= 0xFF,
    ensures
        device.msi_cap_offset == 0 <==> r is None,
        r matches Some(w) ==> w@ == seq![
            ConfigWrite::Write16 {
                offset: (device.msi_cap_offset + MSI_CONTROL) as u8,
                value: control & !MSI_CONTROL_ENABLE,
            },
            ConfigWrite::Write16 { offset: PCI_COMMAND, value: cmd & !PCI_COMMAND_INTERRUPT_DISABLE },
        ],
{
    if device.msi_cap_offset == 0 {
        return None;
    }
    let mut w: Vec<ConfigWrite> = Vec::new();
    w.push(
        ConfigWrite::Write16 {
            offset: device.msi_cap_offset + MSI_CONTROL,
            value: control & !MSI_CONTROL_ENABLE,
        },
    );
    w.push(ConfigWrite::Write16 { offset: PCI_COMMAND, value: cmd & !PCI_COMMAND_INTERRUPT_DISABLE });
    let ghost expected = seq![
        ConfigWrite::Write16 {
            offset: (device.msi_cap_offset + MSI_CONTROL) as u8,
            value: control & !MSI_CONTROL_ENABLE,
        },
        ConfigWrite::Write16 { offset: PCI_COMMAND, value: cmd & !PCI_COMMAND_INTERRUPT_DISABLE },
    ];
    assert(w@ =~= expected);
    Some(w)
}

/// The offset (within the capability) of the MSI mask register for a
/// capability `cap`.
pub open spec fn msi_mask_offset(cap: MsiCapability) -> u8 {
    if cap.is_64bit {
        MSI_MASK_BITS_64
    } else {
        MSI_MASK_BITS_32
    }
}

/// The configuration write that masks (`masked`) or unmasks `vector` of
/// `device`, whose MSI control register reads `control` and whose mask
/// register reads `mask`: `None` without MSI or without per-vector masking.
pub fn msi_vector_mask_write(device: &PciDevice, control: u16, mask: u32, vector: u8, masked: bool) -> (r:
    Option<ConfigWrite>)
    requires
        vector < 32,
        device.msi_cap_offset + MSI_MASK_BITS_64 <= 0xFF,
    ensures
        r is Some <==> device.msi_cap_offset != 0 && control & MSI_CONTROL_PER_VECTOR_MASK != 0,
        r matches Some(w) ==> w == (ConfigWrite::Write32 {
            offset: (device.msi_cap_offset + msi_mask_offset(
                MsiCapability::read_spec(device.msi_cap_offset, control),
            )) as u8,
            value: if masked {
                mask | (1u32 << vector)
            } else {
                mask & !(1u32 << vector)
            },
        }),
{
    if device.msi_cap_offset == 0 {
        return None;
    }
    let cap = MsiCapability::read(device.msi_cap_offset, control);
    if !cap.per_vector_mask {
        return None;
    }
    let mask_offset = if cap.is_64bit {
        MSI_MASK_BITS_64
    } else {
        MSI_MASK_BITS_32
    };
    let value = if masked {
        mask | (1u32 << vector)
    } else {
        mask & !(1u32 << vector)
    };
    Some(ConfigWrite::Write32 { offset: device.msi_cap_offset + mask_offset, value })
}

/// The configuration offset of `device`'s MSI pending-bit register, given
/// its MSI control register `control`: `None` without MSI or without
/// per-vector masking.
pub fn msi_pending_offset(device: &PciDevice, control: u16) -> (r: Option<u8>)
    requires
        device.msi_cap_offset + MSI_PENDING_BITS_64 <= 0xFF,
    ensures
        r is Some <==> device.msi_cap_offset != 0 && control & MSI_CONTROL_PER_VECTOR_MASK != 0,
        r matches Some(o) ==> o == device.msi_cap_offset + if control & MSI_CONTROL_64BIT != 0 {
            MSI_PENDING_BITS_64
        } else {
            MSI_PENDING_BITS_32
        },
{
    if device.msi_cap_offset == 0 || control & MSI_CONTROL_PER_VECTOR_MASK == 0 {
        return None;
    }
    let off = if control & MSI_CONTROL_64BIT != 0 {
        MSI_PENDING_BITS_64
    } else {
        MSI_PENDING_BITS_32
    };
    Some(device.msi_cap_offset + off)
}

/// Whether MSI `vector` of `device` is pending, given its MSI control
/// register `control` and the pending-bit register `pending` (read at
/// `msi_pending_offset`): false without MSI or without per-vector masking.
pub fn msi_is_pending(device: &PciDevice, control: u16, pending: u32, vector: u8) -> (r: bool)
    requires
        vector < 32,
    ensures
        r == (device.msi_cap_offset != 0 && control & MSI_CONTROL_PER_VECTOR_MASK != 0 && pending & (1u32 << vector)
            != 0),
{
    if device.msi_cap_offset == 0 || control & MSI_CONTROL_PER_VECTOR_MASK == 0 {
        return false;
    }
    (pending & (1u32 << vector)) != 0
}

impl MsiCapability {
    /// The capability `read` gives for `offset` and `control`.
    pub open spec fn read_spec(offset: u8, control: u16) -> MsiCapability {
        MsiCapability {
            offset,
            max_vectors: vectors_of((control & MSI_CONTROL_MMC_MASK) >> 1u16),
            is_64bit: control & MSI_CONTROL_64BIT != 0,
            per_vector_mask: control & MSI_CONTROL_PER_VECTOR_MASK != 0,
        }
    }
}

/// The configuration writes that switch MSI-X on for `device` with every
/// vector masked by the function mask, given its command register `cmd`
/// and MSI-X control register `control`; `None` without MSI-X.
pub fn msix_enable(device: &PciDevice, cmd: u16, control: u16) -> (r: Option<Vec<ConfigWrite>>)
    requires
        device.msix_cap_offset + MSIX_CONTROL <= 0xFF,
    ensures
        device.msix_cap_offset == 0 <==> r is None,
        r matches Some(w) ==> w@ == seq![
            ConfigWrite::Write16 { offset: PCI_COMMAND, value: cmd | PCI_COMMAND_INTERRUPT_DISABLE },
            ConfigWrite::Write16 {
                offset: (device.msix_cap_offset + MSIX_CONTROL) as u8,
                value: control | (MSIX_CONTROL_ENABLE | MSIX_CONTROL_FUNC_MASK),
            },
        ],
{
    if device.msix_cap_offset == 0 {
        return None;
    }
    let mut w: Vec<ConfigWrite> = Vec::new();
    w.push(ConfigWrite::Write16 { offset: PCI_COMMAND, value: cmd | PCI_COMMAND_INTERRUPT_DISABLE });
    w.push(
        ConfigWrite::Write16 {
            offset: device.msix_cap_offset + MSIX_CONTROL,
            value: control | (MSIX_CONTROL_ENABLE | MSIX_CONTROL_FUNC_MASK),
        },
    );
    let ghost expected = seq![
        ConfigWrite::Write16 { offset: PCI_COMMAND, value: cmd | PCI_COMMAND_INTERRUPT_DISABLE },
        ConfigWrite::Write16 {
            offset: (device.msix_cap_offset + MSIX_CONTROL) as u8,
            value: control | (MSIX_CONTROL_ENABLE | MSIX_CONTROL_FUNC_MASK),
        },
    ];
    assert(w@ =~= expected);
    Some(w)
}

/// The configuration writes that switch MSI-X off for `device` and give it
/// its legacy interrupt back, given its MSI-X control register `control`
/// and command register `cmd`; `None` without MSI-X.
pub fn msix_disable(device: &PciDevice, control: u16, cmd: u16) -> (r: Option<Vec<ConfigWrite>>)
    requires
        device.msix_cap_offset + MSIX_CONTROL <= 0xFF,
    ensures
        device.msix_cap_offset == 0 <==> r is None,
        r matches Some(w) ==> w@ == seq![
            ConfigWrite::Write16 {
                offset: (device.msix_cap_offset + MSIX_CONTROL) as u8,
                value: control & !MSIX_CONTROL_ENABLE,
            },
            ConfigWrite::Write16 { offset: PCI_COMMAND, value: cmd & !PCI_COMMAND_INTERRUPT_DISABLE },
        ],
{
    if device.msix_cap_offset == 0 {
        return None;
    }
    let mut w: Vec<ConfigWrite> = Vec::new();
    w.push(
        ConfigWrite::Write16 {
            offset: device.msix_cap_offset + MSIX_CONTROL,
            value: control & !MSIX_CONTROL_ENABLE,
        },
    );
    w.push(ConfigWrite::Write16 { offset: PCI_COMMAND, value: cmd & !PCI_COMMAND_INTERRUPT_DISABLE });
    let ghost expected = seq![
        ConfigWrite::Write16 {
            offset: (device.msix_cap_offset + MSIX_CONTROL) as u8,
            value: control & !MSIX_CONTROL_ENABLE,
        },
        ConfigWrite::Write16 { offset: PCI_COMMAND, value: cmd & !PCI_COMMAND_INTERRUPT_DISABLE },
    ];
    assert(w@ =~= expected);
    Some(w)
}

/// The configuration write that sets (`masked`) or clears the MSI-X
/// function mask of `device`, whose MSI-X control register reads
/// `control`; `None` without MSI-X.
pub fn msix_set_function_mask(device: &PciDevice, control: u16, masked: bool) -> (r: Option<ConfigWrite>)
    requires
        device.msix_cap_offset + MSIX_CONTROL <= 0xFF,
    ensures
        device.msix_cap_offset == 0 <==> r is None,
        r matches Some(w) ==> w == (ConfigWrite::Write16 {
            offset: (device.msix_cap_offset + MSIX_CONTROL) as u8,
            value: if masked {
                control | MSIX_CONTROL_FUNC_MASK
            } else {
                control & !MSIX_CONTROL_FUNC_MASK
            },
        }),
{
    if device.msix_cap_offset == 0 {
        return None;
    }
    let value = if masked {
        control | MSIX_CONTROL_FUNC_MASK
    } else {
        control & !MSIX_CONTROL_FUNC_MASK
    };
    Some(ConfigWrite::Write16 { offset: device.msix_cap_offset + MSIX_CONTROL, value })
}

/// The MSI-X table size of `device` whose MSI-X control register reads
/// `control`: 0 without MSI-X.
pub fn msix_get_table_size(device: &PciDevice, control: u16) -> (r: u16)
    ensures
        device.msix_cap_offset == 0 ==> r == 0,
        device.msix_cap_offset != 0 ==> r == (control & MSIX_CONTROL_TABLE_SIZE_MASK) + 1,
{
    if device.msix_cap_offset == 0 {
        return 0;
    }
    let n = control & MSIX_CONTROL_TABLE_SIZE_MASK;
    proof {
        lemma_register_fields(control, 0, 0);
    }
    n + 1
}

/// Whether `device` has MSI or MSI-X.
pub fn device_supports_msi_or_msix(device: &PciDevice) -> (r: bool)
    ensures
        r == (device.msi_cap_offset != 0 || device.msix_cap_offset != 0),
{
    device.supports_msi() || device.supports_msix()
}

/// How `configure_device_interrupts` sets up a device's interrupts.
#[derive(Clone, Copy, Debug, PartialEq, Eq, Structural)]
pub enum InterruptSetup {
    /// MSI-X: switch it on, program entries `0 .. count` unmasked with the
    /// first `count` messages, clear the function mask.
    Msix { count: u16 },
    /// MSI with the single message.
    MsiSingle,
    /// MSI with `requested` vectors from the first message.
    MsiMulti { requested: u8 },
    /// Nothing to set up.
    NotConfigured,
}

/// The setup `configure_device_interrupts` chooses for `device` and
/// `n_messages` messages, given the table size of the MSI-X controller when
/// there is one: MSI-X when the device has it and a controller is at hand,
/// else MSI when the device has it and there are messages.
pub open spec fn interrupt_setup_of(device: PciDevice, n_messages: usize, msix_table_size: Option<u16>) -> InterruptSetup {
    if device.msix_cap_offset != 0 && msix_table_size is Some {
        InterruptSetup::Msix {
            count: if n_messages < msix_table_size->0 {
                n_messages as u16
            } else {
                msix_table_size->0
            },
        }
    } else if device.msi_cap_offset != 0 && n_messages != 0 {
        if n_messages == 1 {
            InterruptSetup::MsiSingle
        } else {
            InterruptSetup::MsiMulti { requested: n_messages as u8 }
        }
    } else {
        InterruptSetup::NotConfigured
    }
}

/// The setup for `device` and `n_messages` messages (see
/// `interrupt_setup_of`).
pub fn interrupt_setup(device: &PciDevice, n_messages: usize, msix_table_size: Option<u16>) -> (r: InterruptSetup)
    ensures
        r == interrupt_setup_of(*device, n_messages, msix_table_size),
{
    if device.supports_msix() {
        if let Some(size) = msix_table_size {
            let count: u16 = if n_messages < size as usize {
                n_messages as u16
            } else {
                size
            };
            return InterruptSetup::Msix { count };
        }
    }
    if device.supports_msi() && n_messages != 0 {
        if n_messages == 1 {
            return InterruptSetup::MsiSingle;
        } else {
            #[verifier::truncate]
            let requested = n_messages as u8;
            return InterruptSetup::MsiMulti { requested };
        }
    }
    InterruptSetup::NotConfigured
}

/// Hands out interrupt vectors upward from 48, below 224.
#[derive(Clone, Copy, Debug)]
pub struct VectorAllocator {
    pub next: u8,
}

impl VectorAllocator {
    /// Nothing handed out yet.
    pub fn new() -> (r: VectorAllocator)
        ensures
            r.next == FIRST_DYNAMIC_VECTOR,
    {
        VectorAllocator { next: FIRST_DYNAMIC_VECTOR }
    }

    /// Hand out `count` consecutive vectors and return the first; `None`
    /// (nothing handed out) when they would reach past 223.
    pub fn allocate_vectors(&mut self, count: u8) -> (r: Option<u8>)
        ensures
            old(self).next + count > DYNAMIC_VECTOR_LIMIT ==> r is None && final(self).next == old(self).next,
            old(self).next + count <= DYNAMIC_VECTOR_LIMIT ==> r == Some(old(self).next) && final(self).next
                == old(self).next + count,
    {
        match self.next.checked_add(count) {
            None => None,
            Some(end) => {
                if end > DYNAMIC_VECTOR_LIMIT {
                    None
                } else {
                    let base = self.next;
                    self.next = end;
                    Some(base)
                }
            },
        }
    }
}

/// `count` (at most 32) fixed messages to `target_cpu` on vectors from
/// `base_vector` (wrapping past 255), padded to 32 with vector 0 to APIC 0.
pub fn create_msi_messages(base_vector: u8, count: u8, target_cpu: u8) -> (r: Vec<MsiMessage>)
    ensures
        r.len() == 32,
        forall|i: int|
            0 <= i < 32 ==> #[trigger] r@[i] == if i < count {
                MsiMessage::new_spec(((base_vector + i) % 256) as u8, target_cpu)
            } else {
                MsiMessage::new_spec(0, 0)
            },
{
    let mut messages: Vec<MsiMessage> = Vec::new();
    let mut i: u8 = 0;
    while i < 32
        invariant
            i <= 32,
            messages.len() == i,
            forall|j: int|
                0 <= j < i ==> #[trigger] messages@[j] == if j < count {
                    MsiMessage::new_spec(((base_vector + j) % 256) as u8, target_cpu)
                } else {
                    MsiMessage::new_spec(0, 0)
                },
        decreases 32 - i,
    {
        let m = if i < count {
            MsiMessage::new(base_vector.wrapping_add(i), target_cpu)
        } else {
            MsiMessage::new(0, 0)
        };
        messages.push(m);
        i = i + 1;
    }
    messages
}

/// `count` (at most 32) lowest-priority messages on vectors from
/// `base_vector` (wrapping past 255), padded to 32 with vector 0 to APIC 0.
pub fn create_msi_messages_lowest_priority(base_vector: u8, count: u8) -> (r: Vec<MsiMessage>)
    ensures
        r.len() == 32,
        forall|i: int|
            0 <= i < 32 ==> #[trigger] r@[i] == if i < count {
                MsiMessage::lowest_priority_spec(((base_vector + i) % 256) as u8)
            } else {
                MsiMessage::new_spec(0, 0)
            },
{
    let mut messages: Vec<MsiMessage> = Vec::new();
    let mut i: u8 = 0;
    while i < 32
        invariant
            i <= 32,
            messages.len() == i,
            forall|j: int|
                0 <= j < i ==> #[trigger] messages@[j] == if j < count {
                    MsiMessage::lowest_priority_spec(((base_vector + j) % 256) as u8)
                } else {
                    MsiMessage::new_spec(0, 0)
                },
        decreases 32 - i,
    {
        let m = if i < count {
            MsiMessage::lowest_priority(base_vector.wrapping_add(i))
        } else {
            MsiMessage::new(0, 0)
        };
        messages.push(m);
        i = i + 1;
    }
    messages
}

impl MsiMessage {
    /// The message `new` gives.
    pub open spec fn new_spec(vector: u8, dest_id: u8) -> MsiMessage {
        MsiMessage {
            vector,
            dest_id,
            delivery_mode: MsiDeliveryMode::Fixed,
            dest_mode: MsiDestinationMode::Physical,
            trigger_mode: MsiTriggerMode::Edge,
            redirect_hint: false,
        }
    }

    /// The message `lowest_priority` gives.
    pub open spec fn lowest_priority_spec(vector: u8) -> MsiMessage {
        MsiMessage {
            vector,
            dest_id: 0,
            delivery_mode: MsiDeliveryMode::LowestPriority,
            dest_mode: MsiDestinationMode::Logical,
            trigger_mode: MsiTriggerMode::Edge,
            redirect_hint: true,
        }
    }
}

} // verus!
