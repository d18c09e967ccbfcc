//! The 8259 interrupt controllers and the local APIC: the port writes that
//! remap, acknowledge and mask the PICs, and the register values the APIC
//! driver computes.
use vstd::prelude::*;
use crate::ata::PortWrite;

verus! {

pub const PIC1_COMMAND: u16 = 0x20;
pub const PIC1_DATA: u16 = 0x21;
pub const PIC2_COMMAND: u16 = 0xA0;
pub const PIC2_DATA: u16 = 0xA1;
pub const ICW1_ICW4: u8 = 0x01;
pub const ICW1_INIT: u8 = 0x10;
pub const ICW4_8086: u8 = 0x01;
pub const CASCADE_IRQ: u8 = 2;
pub const PIC_EOI: u8 = 0x20;

pub const APIC_ID: u32 = 0x020;
pub const APIC_EOI: u32 = 0x0B0;
pub const APIC_SPURIOUS: u32 = 0x0F0;
pub const APIC_TIMER_LVT: u32 = 0x320;
pub const APIC_TIMER_INITIAL: u32 = 0x380;
pub const APIC_TIMER_DIVIDE: u32 = 0x3E0;
pub const APIC_SPURIOUS_ENABLE: u32 = 0x100;
pub const APIC_TIMER_PERIODIC: u32 = 0x20000;
pub const APIC_TIMER_MASKED: u32 = 0x10000;
pub const IA32_APIC_BASE_MSR: u32 = 0x1B;
pub const IA32_APIC_BASE_ENABLE: u64 = 0x800;

/// The writes that reinitialise both PICs with their IRQs at vectors
/// `offset1` (master) and `offset2` (slave), cascaded on IRQ 2, in 8086
/// mode, all lines unmasked.
pub open spec fn remap_writes(offset1: u8, offset2: u8) -> Seq<PortWrite> {
    seq![
        PortWrite { port: PIC1_COMMAND, value: ICW1_INIT | ICW1_ICW4 },
        PortWrite { port: PIC2_COMMAND, value: ICW1_INIT | ICW1_ICW4 },
        PortWrite { port: PIC1_DATA, value: offset1 },
        PortWrite { port: PIC2_DATA, value: offset2 },
        PortWrite { port: PIC1_DATA, value: 4 },
        PortWrite { port: PIC2_DATA, value: CASCADE_IRQ },
        PortWrite { port: PIC1_DATA, value: ICW4_8086 },
        PortWrite { port: PIC2_DATA, value: ICW4_8086 },
        PortWrite { port: PIC1_DATA, value: 0 },
        PortWrite { port: PIC2_DATA, value: 0 },
    ]
}

/// The writes of `remap` (the driver waits briefly after each of the first
/// eight).
pub fn remap(offset1: u8, offset2: u8) -> (r: Vec<PortWrite>)
    ensures
        r@ == remap_writes(offset1, offset2),
{
    let mut w: Vec<PortWrite> = Vec::new();
    w.push(PortWrite { port: PIC1_COMMAND, value: ICW1_INIT | ICW1_ICW4 });
    w.push(PortWrite { port: PIC2_COMMAND, value: ICW1_INIT | ICW1_ICW4 });
    w.push(PortWrite { port: PIC1_DATA, value: offset1 });
    w.push(PortWrite { port: PIC2_DATA, value: offset2 });
    w.push(PortWrite { port: PIC1_DATA, value: 4 });
    w.push(PortWrite { port: PIC2_DATA, value: CASCADE_IRQ });
    w.push(PortWrite { port: PIC1_DATA, value: ICW4_8086 });
    w.push(PortWrite { port: PIC2_DATA, value: ICW4_8086 });
    w.push(PortWrite { port: PIC1_DATA, value: 0 });
    w.push(PortWrite { port: PIC2_DATA, value: 0 });
    assert(w@ =~= remap_writes(offset1, offset2));
    w
}

/// The writes that acknowledge IRQ line `irq`: the slave too for lines 8
/// and up, then the master.
pub fn send_eoi(irq: u8) -> (r: Vec<PortWrite>)
    ensures
        irq >= 8 ==> r@ == seq![
            PortWrite { port: PIC2_COMMAND, value: PIC_EOI },
            PortWrite { port: PIC1_COMMAND, value: PIC_EOI },
        ],
        irq < 8 ==> r@ == seq![PortWrite { port: PIC1_COMMAND, value: PIC_EOI }],
{
    let mut w: Vec<PortWrite> = Vec::new();
    if irq >= 8 {
        w.push(PortWrite { port: PIC2_COMMAND, value: PIC_EOI });
    }
    w.push(PortWrite { port: PIC1_COMMAND, value: PIC_EOI });
    proof {
        if irq >= 8 {
            assert(w@ =~= seq![
                PortWrite { port: PIC2_COMMAND, value: PIC_EOI },
                PortWrite { port: PIC1_COMMAND, value: PIC_EOI },
            ]);
        } else {
            assert(w@ =~= seq![PortWrite { port: PIC1_COMMAND, value: PIC_EOI }]);
        }
    }
    w
}

/// The writes that mask every line of both PICs.
pub fn disable() -> (r: Vec<PortWrite>)
    ensures
        r@ == seq![PortWrite { port: PIC1_DATA, value: 0xFF }, PortWrite { port: PIC2_DATA, value: 0xFF }],
{
    let mut w: Vec<PortWrite> = Vec::new();
    w.push(PortWrite { port: PIC1_DATA, value: 0xFF });
    w.push(PortWrite { port: PIC2_DATA, value: 0xFF });
    assert(w@ =~= seq![PortWrite { port: PIC1_DATA, value: 0xFF }, PortWrite { port: PIC2_DATA, value: 0xFF }]);
    w
}

/// The data port of the PIC serving IRQ line `irq_line`.
pub fn mask_port(irq_line: u8) -> (r: u16)
    ensures
        r == if irq_line < 8 { PIC1_DATA } else { PIC2_DATA },
{
    if irq_line < 8 {
        PIC1_DATA
    } else {
        PIC2_DATA
    }
}

/// The mask register value that masks (`masked`) or unmasks line
/// `irq_line`, given the current value `current`: bit `irq_line % 8`.
pub fn mask_value(current: u8, irq_line: u8, masked: bool) -> (r: u8)
    ensures
        masked ==> r == current | (1u8 << (irq_line % 8)),
        !masked ==> r == current & !(1u8 << (irq_line % 8)),
{
    let bit: u8 = 1u8 << (irq_line % 8);
    if masked {
        current | bit
    } else {
        current & !bit
    }
}

/// Whether CPUID leaf 1's EDX reports a local APIC (bit 9).
pub fn has_apic(cpuid_1_edx: u32) -> (r: bool)
    ensures
        r == (cpuid_1_edx & 0x200 != 0),
{
    (cpuid_1_edx & 0x200) != 0
}

/// Whether CPUID leaf 1's ECX reports x2APIC (bit 21).
pub fn has_x2apic(cpuid_1_ecx: u32) -> (r: bool)
    ensures
        r == (cpuid_1_ecx & 0x20_0000 != 0),
{
    (cpuid_1_ecx & 0x20_0000) != 0
}

/// The local APIC's physical base in the APIC base MSR value `msr`.
pub fn local_apic_base(msr: u64) -> (r: u64)
    ensures
        r == msr & 0xFFFF_FFFF_FFFF_F000,
{
    msr & 0xFFFF_FFFF_FFFF_F000
}

/// The APIC base MSR value that enables the APIC.
pub fn apic_base_enabled(msr: u64) -> (r: u64)
    ensures
        r == msr | IA32_APIC_BASE_ENABLE,
{
    msr | IA32_APIC_BASE_ENABLE
}

/// The spurious-vector register value that enables the APIC with vector
/// 0xFF.
pub fn spurious_enabled(value: u32) -> (r: u32)
    ensures
        r == value | APIC_SPURIOUS_ENABLE | 0xFF,
{
    value | APIC_SPURIOUS_ENABLE | 0xFF
}

/// The spurious-vector register value that disables the APIC.
pub fn spurious_disabled(value: u32) -> (r: u32)
    ensures
        r == value & !APIC_SPURIOUS_ENABLE,
{
    value & !APIC_SPURIOUS_ENABLE
}

/// The APIC ID in the ID register value `id_reg` (bits 24-31).
pub fn apic_id(id_reg: u32) -> (r: u32)
    ensures
        r == (id_reg >> 24u32) & 0xFF,
{
    (id_reg >> 24u32) & 0xFF
}

/// The timer divide-configuration code of `divider`: 1, 2, 4, ... 128;
/// anything else divides by 2.
pub open spec fn divide_code(divider: u32) -> u32 {
    if divider == 1 {
        0b1011
    } else if divider == 2 {
        0b0000
    } else if divider == 4 {
        0b0001
    } else if divider == 8 {
        0b0010
    } else if divider == 16 {
        0b0011
    } else if divider == 32 {
        0b1000
    } else if divider == 64 {
        0b1001
    } else if divider == 128 {
        0b1010
    } else {
        0b0000
    }
}

/// The register writes (offset, value) that start the APIC timer in
/// periodic mode on `vector`, dividing the bus clock by `divider`, counting
/// down from `initial_count`.
pub fn local_apic_timer_init(vector: u8, divider: u32, initial_count: u32) -> (r: Vec<(u32, u32)>)
    ensures
        r@ == seq![
            (APIC_TIMER_DIVIDE, divide_code(divider)),
            (APIC_TIMER_LVT, APIC_TIMER_PERIODIC | (vector as u32)),
            (APIC_TIMER_INITIAL, initial_count),
        ],
{
    let code: u32 = match divider {
        1 => 0b1011,
        2 => 0b0000,
        4 => 0b0001,
        8 => 0b0010,
        16 => 0b0011,
        32 => 0b1000,
        64 => 0b1001,
        128 => 0b1010,
        _ => 0b0000,
    };
    let mut w: Vec<(u32, u32)> = Vec::new();
    w.push((APIC_TIMER_DIVIDE, code));
    w.push((APIC_TIMER_LVT, APIC_TIMER_PERIODIC | (vector as u32)));
    w.push((APIC_TIMER_INITIAL, initial_count));
    assert(w@ =~= seq![
        (APIC_TIMER_DIVIDE, divide_code(divider)),
        (APIC_TIMER_LVT, APIC_TIMER_PERIODIC | (vector as u32)),
        (APIC_TIMER_INITIAL, initial_count),
    ]);
    w
}

/// The register writes that stop the APIC timer: mask it and clear its
/// count.
pub fn local_apic_timer_stop() -> (r: Vec<(u32, u32)>)
    ensures
        r@ == seq![(APIC_TIMER_LVT, APIC_TIMER_MASKED), (APIC_TIMER_INITIAL, 0u32)],
{
    let mut w: Vec<(u32, u32)> = Vec::new();
    w.push((APIC_TIMER_LVT, APIC_TIMER_MASKED));
    w.push((APIC_TIMER_INITIAL, 0));
    assert(w@ =~= seq![(APIC_TIMER_LVT, APIC_TIMER_MASKED), (APIC_TIMER_INITIAL, 0u32)]);
    w
}

} // verus!
