//! Interrupt descriptor table: 256 gate descriptors, the `lidt` operand,
//! and the table the kernel loads at boot (exceptions 0-31, IRQs 32-47).
use vstd::prelude::*;

verus! {

/// Exception vector numbers.
pub const DIVIDE_ERROR: usize = 0;
pub const DEBUG: usize = 1;
pub const NMI: usize = 2;
pub const BREAKPOINT: usize = 3;
pub const OVERFLOW: usize = 4;
pub const BOUND_RANGE: usize = 5;
pub const INVALID_OPCODE: usize = 6;
pub const DEVICE_NOT_AVAILABLE: usize = 7;
pub const DOUBLE_FAULT: usize = 8;
pub const INVALID_TSS: usize = 10;
pub const SEGMENT_NOT_PRESENT: usize = 11;
pub const STACK_SEGMENT_FAULT: usize = 12;
pub const GENERAL_PROTECTION: usize = 13;
pub const PAGE_FAULT: usize = 14;
pub const FPU_ERROR: usize = 16;
pub const ALIGNMENT_CHECK: usize = 17;
pub const MACHINE_CHECK: usize = 18;
pub const SIMD_EXCEPTION: usize = 19;
pub const VIRTUALIZATION: usize = 20;
pub const CONTROL_PROTECTION: usize = 21;

/// Number of gates in the table.
pub const IDT_ENTRIES: usize = 256;

/// Gate type of an interrupt gate (interrupts disabled on entry).
pub const INTERRUPT_GATE: u8 = 0xE;

/// Gate type of a trap gate (interrupts left enabled on entry).
pub const TRAP_GATE: u8 = 0xF;

/// Kernel code segment selector the boot table's gates use.
pub const KERNEL_CS: u16 = 0x08;

/// A 16-byte gate descriptor.
#[derive(Clone, Copy, Debug)]
pub struct IdtEntry {
    pub offset_low: u16,
    pub selector: u16,
    pub ist: u8,
    pub type_attr: u8,
    pub offset_mid: u16,
    pub offset_high: u32,
    pub reserved: u32,
}

/// The all-zero (not present) gate.
pub open spec fn null_gate() -> IdtEntry {
    IdtEntry {
        offset_low: 0,
        selector: 0,
        ist: 0,
        type_attr: 0,
        offset_mid: 0,
        offset_high: 0,
        reserved: 0,
    }
}

/// The present gate to `handler` through code segment `selector`, on
/// interrupt stack `ist` (low 3 bits), of type `gate_type` (low 4 bits) and
/// privilege `dpl` (low 2 bits).
pub open spec fn gate(handler: u64, selector: u16, ist: u8, gate_type: u8, dpl: u8) -> IdtEntry {
    IdtEntry {
        offset_low: (handler & 0xFFFF) as u16,
        selector,
        ist: ist & 0x7,
        type_attr: (0x80u8 | ((dpl & 0x3) << 5u8)) | (gate_type & 0xF),
        offset_mid: ((handler >> 16u64) & 0xFFFF) as u16,
        offset_high: ((handler >> 32u64) & 0xFFFF_FFFF) as u32,
        reserved: 0,
    }
}

/// The handler address an entry holds, put together from its three parts.
pub open spec fn entry_offset(e: IdtEntry) -> u64 {
    (e.offset_low as u64) | ((e.offset_mid as u64) << 16u64) | ((e.offset_high as u64) << 32u64)
}

/// Splitting a handler address into a gate and joining the parts gives the
/// address back.
pub proof fn lemma_gate_offset(handler: u64, selector: u16, ist: u8, gate_type: u8, dpl: u8)
    ensures
        entry_offset(gate(handler, selector, ist, gate_type, dpl)) == handler,
{
    let lo = (handler & 0xFFFF) as u16;
    let mid = ((handler >> 16u64) & 0xFFFF) as u16;
    let hi = ((handler >> 32u64) & 0xFFFF_FFFF) as u32;
    assert((lo as u64) | ((mid as u64) << 16u64) | ((hi as u64) << 32u64) == handler) by (bit_vector)
        requires
            lo == (handler & 0xFFFF) as u16,
            mid == ((handler >> 16u64) & 0xFFFF) as u16,
            hi == ((handler >> 32u64) & 0xFFFF_FFFF) as u32,
    ;
}

impl IdtEntry {
    /// The not-present gate.
    pub fn new() -> (r: IdtEntry)
        ensures
            r == null_gate(),
    {
        IdtEntry {
            offset_low: 0,
            selector: 0,
            ist: 0,
            type_attr: 0,
            offset_mid: 0,
            offset_high: 0,
            reserved: 0,
        }
    }

    /// Make this a present gate to `handler`.
    pub fn set_handler(&mut self, handler: u64, selector: u16, ist: u8, gate_type: u8, dpl: u8)
        ensures
            *final(self) == gate(handler, selector, ist, gate_type, dpl),
            entry_offset(*final(self)) == handler,
    {
        self.offset_low = (handler & 0xFFFF) as u16;
        self.offset_mid = ((handler >> 16u64) & 0xFFFF) as u16;
        self.offset_high = ((handler >> 32u64) & 0xFFFF_FFFF) as u32;
        self.selector = selector;
        self.ist = ist & 0x7;
        self.type_attr = (0x80u8 | ((dpl & 0x3) << 5u8)) | (gate_type & 0xF);
        self.reserved = 0;
        proof {
            lemma_gate_offset(handler, selector, ist, gate_type, dpl);
        }
    }

    /// Make this an interrupt gate to `handler`.
    pub fn set_interrupt_gate(&mut self, handler: u64, selector: u16, ist: u8, dpl: u8)
        ensures
            *final(self) == gate(handler, selector, ist, INTERRUPT_GATE, dpl),
    {
        self.set_handler(handler, selector, ist, INTERRUPT_GATE, dpl);
    }

    /// Make this a trap gate to `handler`.
    pub fn set_trap_gate(&mut self, handler: u64, selector: u16, ist: u8, dpl: u8)
        ensures
            *final(self) == gate(handler, selector, ist, TRAP_GATE, dpl),
    {
        self.set_handler(handler, selector, ist, TRAP_GATE, dpl);
    }
}

/// The operand of `lidt`: size minus one and base address of the table.
#[derive(Clone, Copy, Debug)]
pub struct IdtPointer {
    pub limit: u16,
    pub base: u64,
}

/// The interrupt descriptor table.
pub struct Idt {
    entries: Vec<IdtEntry>,
}

impl View for Idt {
    type V = Seq<IdtEntry>;

    closed spec fn view(&self) -> Seq<IdtEntry> {
        self.entries@
    }
}

impl Idt {
    /// All 256 gates not present.
    pub fn new() -> (r: Idt)
        ensures
            r@ == Seq::new(IDT_ENTRIES as nat, |i: int| null_gate()),
    {
        let mut entries: Vec<IdtEntry> = Vec::new();
        while entries.len() < IDT_ENTRIES
            invariant
                entries.len() <= IDT_ENTRIES,
                forall|i: int| 0 <= i < entries.len() ==> entries@[i] == null_gate(),
            decreases IDT_ENTRIES - entries.len(),
        {
            entries.push(IdtEntry::new());
        }
        assert(entries@ == Seq::new(IDT_ENTRIES as nat, |i: int| null_gate()));
        Idt { entries }
    }

    /// Gate number `index`, if the table has that many gates.
    pub fn entry(&self, index: usize) -> (r: Option<IdtEntry>)
        ensures
            index < self@.len() ==> r == Some(self@[index as int]),
            index >= self@.len() ==> r is None,
    {
        if index < self.entries.len() {
            Some(self.entries[index])
        } else {
            None
        }
    }

    /// Put `entry` at `index`; an index past the table changes nothing.
    pub fn set_entry(&mut self, index: usize, entry: IdtEntry)
        requires
            old(self)@.len() == IDT_ENTRIES,
        ensures
            final(self)@ == if index < IDT_ENTRIES {
                old(self)@.update(index as int, entry)
            } else {
                old(self)@
            },
    {
        if index < IDT_ENTRIES {
            self.entries.set(index, entry);
        }
    }

    /// Make `vector` a ring-0 interrupt gate to `handler`; a vector past the
    /// table changes nothing.
    pub fn set_interrupt_gate(&mut self, vector: usize, handler: u64, selector: u16, ist: u8)
        requires
            old(self)@.len() == IDT_ENTRIES,
        ensures
            final(self)@ == if vector < IDT_ENTRIES {
                old(self)@.update(vector as int, gate(handler, selector, ist, INTERRUPT_GATE, 0))
            } else {
                old(self)@
            },
    {
        if vector < IDT_ENTRIES {
            let mut e = self.entries[vector];
            e.set_interrupt_gate(handler, selector, ist, 0);
            self.entries.set(vector, e);
        }
    }

    /// Make `vector` a ring-0 trap gate to `handler`; a vector past the table
    /// changes nothing.
    pub fn set_trap_gate(&mut self, vector: usize, handler: u64, selector: u16, ist: u8)
        requires
            old(self)@.len() == IDT_ENTRIES,
        ensures
            final(self)@ == if vector < IDT_ENTRIES {
                old(self)@.update(vector as int, gate(handler, selector, ist, TRAP_GATE, 0))
            } else {
                old(self)@
            },
    {
        if vector < IDT_ENTRIES {
            let mut e = self.entries[vector];
            e.set_trap_gate(handler, selector, ist, 0);
            self.entries.set(vector, e);
        }
    }

    /// The `lidt` operand for this table placed at `base`: 256 gates of 16
    /// bytes.
    pub fn pointer(&self, base: u64) -> (r: IdtPointer)
        ensures
            r.limit == 4095 && r.base == base,
    {
        IdtPointer { limit: 4095, base }
    }
}

/// Interrupt stack slot of exception `vector` in the boot table: NMI on 2,
/// double fault on 1, machine check on 3, page fault on `page_fault_ist`,
/// the others on the current stack.
pub open spec fn exception_stack(vector: int, page_fault_ist: u8) -> u8 {
    if vector == NMI {
        2
    } else if vector == DOUBLE_FAULT {
        1
    } else if vector == PAGE_FAULT {
        page_fault_ist
    } else if vector == MACHINE_CHECK {
        3
    } else {
        0
    }
}

/// Debug, breakpoint and overflow get trap gates; every other vector an
/// interrupt gate.
pub open spec fn is_trap_vector(vector: int) -> bool {
    vector == DEBUG || vector == BREAKPOINT || vector == OVERFLOW
}

/// Gate `vector` of the boot table, for exception stubs `isr` (vectors 0-31)
/// and IRQ stubs `irq` (vectors 32-47); the rest not present.
pub open spec fn boot_gate(isr: Seq<u64>, irq: Seq<u64>, page_fault_ist: u8, vector: int) -> IdtEntry {
    if 0 <= vector < 32 {
        gate(
            isr[vector],
            KERNEL_CS,
            exception_stack(vector, page_fault_ist),
            if is_trap_vector(vector) { TRAP_GATE } else { INTERRUPT_GATE },
            0,
        )
    } else if 32 <= vector < 48 {
        gate(irq[vector - 32], KERNEL_CS, 0, INTERRUPT_GATE, 0)
    } else {
        null_gate()
    }
}

fn exception_stack_of(vector: usize, page_fault_ist: u8) -> (r: u8)
    ensures
        r == exception_stack(vector as int, page_fault_ist),
{
    if vector == NMI {
        2
    } else if vector == DOUBLE_FAULT {
        1
    } else if vector == PAGE_FAULT {
        page_fault_ist
    } else if vector == MACHINE_CHECK {
        3
    } else {
        0
    }
}

fn build_boot_idt(isr: &Vec<u64>, irq: &Vec<u64>, page_fault_ist: u8) -> (r: Idt)
    requires
        isr.len() == 32,
        irq.len() == 16,
    ensures
        r@ == Seq::new(IDT_ENTRIES as nat, |v: int| boot_gate(isr@, irq@, page_fault_ist, v)),
{
    let mut idt = Idt::new();
    let mut v: usize = 0;
    while v < 48
        invariant
            v <= 48,
            isr.len() == 32,
            irq.len() == 16,
            idt@.len() == IDT_ENTRIES,
            forall|i: int| 0 <= i < v ==> idt@[i] == boot_gate(isr@, irq@, page_fault_ist, i),
            forall|i: int| v <= i < IDT_ENTRIES ==> idt@[i] == null_gate(),
        decreases 48 - v,
    {
        if v < 32 {
            let ist = exception_stack_of(v, page_fault_ist);
            if v == DEBUG || v == BREAKPOINT || v == OVERFLOW {
                idt.set_trap_gate(v, isr[v], KERNEL_CS, ist);
            } else {
                idt.set_interrupt_gate(v, isr[v], KERNEL_CS, ist);
            }
        } else {
            idt.set_interrupt_gate(v, irq[v - 32], KERNEL_CS, 0);
        }
        v = v + 1;
    }
    assert(idt@ == Seq::new(IDT_ENTRIES as nat, |v: int| boot_gate(isr@, irq@, page_fault_ist, v)));
    idt
}

/// The table `init` loads at `idt_addr`: exception stubs `isr` on vectors
/// 0-31 (the page fault on its own stack, slot 5) and IRQ stubs `irq` on
/// 32-47, all through the kernel code segment at ring 0.
pub fn init(isr: &Vec<u64>, irq: &Vec<u64>, idt_addr: u64) -> (r: (Idt, IdtPointer))
    requires
        isr.len() == 32,
        irq.len() == 16,
    ensures
        r.0@ == Seq::new(IDT_ENTRIES as nat, |v: int| boot_gate(isr@, irq@, 5, v)),
        r.1.limit == 4095 && r.1.base == idt_addr,
{
    let idt = build_boot_idt(isr, irq, 5);
    let p = idt.pointer(idt_addr);
    (idt, p)
}

/// The table `idt_init` loads at `idt_addr`: as `init`, but the page fault
/// runs on the current stack.
pub fn idt_init(isr: &Vec<u64>, irq: &Vec<u64>, idt_addr: u64) -> (r: (Idt, IdtPointer))
    requires
        isr.len() == 32,
        irq.len() == 16,
    ensures
        r.0@ == Seq::new(IDT_ENTRIES as nat, |v: int| boot_gate(isr@, irq@, 0, v)),
        r.1.limit == 4095 && r.1.base == idt_addr,
{
    let idt = build_boot_idt(isr, irq, 0);
    let p = idt.pointer(idt_addr);
    (idt, p)
}

} // verus!
