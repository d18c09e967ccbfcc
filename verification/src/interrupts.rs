//! What the exception and IRQ handlers decide before they print or halt:
//! the name of an exception, whether a page fault hit a guard page, the hex
//! rendering of a register, the timer's report cadence and which PICs an
//! end-of-interrupt goes to.
use vstd::prelude::*;
use crate::guard_page::{page_base, GuardRegistry};

verus! {

/// Name of exception `vector`, as the kernel's fault report prints it.
pub open spec fn exception_name_of(vector: u64) -> Seq<char> {
    if vector == 0 {
        "Divide Error"@
    } else if vector == 1 {
        "Debug"@
    } else if vector == 2 {
        "NMI"@
    } else if vector == 3 {
        "Breakpoint"@
    } else if vector == 4 {
        "Overflow"@
    } else if vector == 5 {
        "Bound Range"@
    } else if vector == 6 {
        "Invalid Opcode"@
    } else if vector == 7 {
        "Device Not Available"@
    } else if vector == 8 {
        "Double Fault"@
    } else if vector == 10 {
        "Invalid TSS"@
    } else if vector == 11 {
        "Segment Not Present"@
    } else if vector == 12 {
        "Stack Fault"@
    } else if vector == 13 {
        "General Protection Fault"@
    } else if vector == 14 {
        "Page Fault"@
    } else if vector == 16 {
        "FPU Error"@
    } else if vector == 17 {
        "Alignment Check"@
    } else if vector == 18 {
        "Machine Check"@
    } else if vector == 19 {
        "SIMD Exception"@
    } else if vector == 20 {
        "Virtualization"@
    } else if vector == 21 {
        "Control Protection"@
    } else {
        "Unknown"@
    }
}

/// Name of exception `vector`.
pub fn exception_name(vector: u64) -> (r: &'static str)
    ensures
        r@ == exception_name_of(vector),
{
    match vector {
        0 => "Divide Error",
        1 => "Debug",
        2 => "NMI",
        3 => "Breakpoint",
        4 => "Overflow",
        5 => "Bound Range",
        6 => "Invalid Opcode",
        7 => "Device Not Available",
        8 => "Double Fault",
        10 => "Invalid TSS",
        11 => "Segment Not Present",
        12 => "Stack Fault",
        13 => "General Protection Fault",
        14 => "Page Fault",
        16 => "FPU Error",
        17 => "Alignment Check",
        18 => "Machine Check",
        19 => "SIMD Exception",
        20 => "Virtualization",
        21 => "Control Protection",
        _ => "Unknown",
    }
}

/// Full name of exception `vector`, as the interrupt library's handler
/// prints it.
pub open spec fn exception_full_name_of(vector: u64) -> Seq<char> {
    if vector == 0 {
        "Divide Error"@
    } else if vector == 1 {
        "Debug"@
    } else if vector == 2 {
        "Non-Maskable Interrupt"@
    } else if vector == 3 {
        "Breakpoint"@
    } else if vector == 4 {
        "Overflow"@
    } else if vector == 5 {
        "Bound Range Exceeded"@
    } else if vector == 6 {
        "Invalid Opcode"@
    } else if vector == 7 {
        "Device Not Available"@
    } else if vector == 8 {
        "Double Fault"@
    } else if vector == 9 {
        "Coprocessor Segment Overrun"@
    } else if vector == 10 {
        "Invalid TSS"@
    } else if vector == 11 {
        "Segment Not Present"@
    } else if vector == 12 {
        "Stack-Segment Fault"@
    } else if vector == 13 {
        "General Protection Fault"@
    } else if vector == 14 {
        "Page Fault"@
    } else if vector == 16 {
        "x87 FPU Error"@
    } else if vector == 17 {
        "Alignment Check"@
    } else if vector == 18 {
        "Machine Check"@
    } else if vector == 19 {
        "SIMD Floating-Point Exception"@
    } else if vector == 20 {
        "Virtualization Exception"@
    } else if vector == 21 {
        "Control Protection Exception"@
    } else {
        "Unknown Exception"@
    }
}

/// Full name of exception `vector`.
pub fn exception_full_name(vector: u64) -> (r: &'static str)
    ensures
        r@ == exception_full_name_of(vector),
{
    match vector {
        0 => "Divide Error",
        1 => "Debug",
        2 => "Non-Maskable Interrupt",
        3 => "Breakpoint",
        4 => "Overflow",
        5 => "Bound Range Exceeded",
        6 => "Invalid Opcode",
        7 => "Device Not Available",
        8 => "Double Fault",
        9 => "Coprocessor Segment Overrun",
        10 => "Invalid TSS",
        11 => "Segment Not Present",
        12 => "Stack-Segment Fault",
        13 => "General Protection Fault",
        14 => "Page Fault",
        16 => "x87 FPU Error",
        17 => "Alignment Check",
        18 => "Machine Check",
        19 => "SIMD Floating-Point Exception",
        20 => "Virtualization Exception",
        21 => "Control Protection Exception",
        _ => "Unknown Exception",
    }
}

/// What a page fault was.
#[derive(Clone, Copy, Debug, PartialEq, Eq, Structural)]
pub enum PageFaultKind {
    /// A not-present fault on a registered guard page: a kernel stack ran
    /// over.
    StackOverflow,
    /// Any other fault, with the error code's bits: the page was present,
    /// the access was a write, from user mode, hit a reserved bit, or was an
    /// instruction fetch.
    Fault { present: bool, write: bool, user: bool, reserved: bool, instruction_fetch: bool },
}

/// The kind of a page fault at `fault_addr` with `error_code`, given the
/// registered guard pages `guards`.
pub open spec fn page_fault_kind_of(error_code: u64, fault_addr: u64, guards: Seq<u64>) -> PageFaultKind {
    if error_code & 1 == 0 && guards.contains(page_base(fault_addr)) {
        PageFaultKind::StackOverflow
    } else {
        PageFaultKind::Fault {
            present: error_code & 1 != 0,
            write: error_code & 2 != 0,
            user: error_code & 4 != 0,
            reserved: error_code & 8 != 0,
            instruction_fetch: error_code & 0x10 != 0,
        }
    }
}

/// Classify a page fault at `fault_addr` (CR2) with `error_code`.
pub fn classify_page_fault(error_code: u64, fault_addr: u64, guards: &GuardRegistry) -> (r: PageFaultKind)
    ensures
        r == page_fault_kind_of(error_code, fault_addr, guards@),
{
    let is_not_present = (error_code & 1) == 0;
    if is_not_present && guards.is_guard_page(fault_addr) {
        return PageFaultKind::StackOverflow;
    }
    PageFaultKind::Fault {
        present: !is_not_present,
        write: (error_code & 2) != 0,
        user: (error_code & 4) != 0,
        reserved: (error_code & 8) != 0,
        instruction_fetch: (error_code & 0x10) != 0,
    }
}

/// Upper-case hex digit `d` (0 .. 16).
pub open spec fn hex_digit(d: u64) -> u8 {
    if d < 10 {
        (48 + d) as u8
    } else {
        (55 + d) as u8
    }
}

/// Digit `i` (0 = most significant) of the 16-digit hex rendering of `num`.
pub open spec fn hex_digit_at(num: u64, i: int) -> u8 {
    hex_digit((num >> ((60 - 4 * i) as u64)) & 0xF)
}

/// `num` as the fault reports print it: "0x" and 16 upper-case hex digits.
pub fn format_hex_u64(num: u64) -> (r: Vec<u8>)
    ensures
        r.len() == 18,
        r@[0] == 48u8 && r@[1] == 120u8,
        forall|i: int| 0 <= i < 16 ==> #[trigger] r@[i + 2] == hex_digit_at(num, i),
{
    let mut out: Vec<u8> = Vec::new();
    out.push(48u8);
    out.push(120u8);
    let mut i: u64 = 0;
    while i < 16
        invariant
            i <= 16,
            out.len() == i + 2,
            out@[0] == 48u8 && out@[1] == 120u8,
            forall|j: int| 0 <= j < i ==> #[trigger] out@[j + 2] == hex_digit_at(num, j),
        decreases 16 - i,
    {
        let shift: u64 = 60 - 4 * i;
        let d = (num >> shift) & 0xF;
        assert(d < 16) by (bit_vector)
            requires
                d == (num >> shift) & 0xF,
        ;
        let c: u8 = if d < 10 {
            48 + d as u8
        } else {
            55 + d as u8
        };
        out.push(c);
        i = i + 1;
    }
    out
}

/// `b` as two upper-case hex digits, high nibble first.
pub fn format_hex_byte(b: u8) -> (r: Vec<u8>)
    ensures
        r@ == seq![hex_digit((b / 16) as u64), hex_digit((b % 16) as u64)],
{
    let hi = b / 16;
    let lo = b % 16;
    let mut out: Vec<u8> = Vec::new();
    out.push(if hi < 10 {
        48 + hi
    } else {
        55 + hi
    });
    out.push(if lo < 10 {
        48 + lo
    } else {
        55 + lo
    });
    out
}

/// The decimal digits of `n`, most significant first, with no leading
/// zeros ("0" for 0).
pub open spec fn decimal_digits(n: u64) -> Seq<u8>
    decreases n,
{
    if n < 10 {
        seq![(48 + n) as u8]
    } else {
        decimal_digits(n / 10).push((48 + n % 10) as u8)
    }
}

fn push_decimal(n: u64, out: &mut Vec<u8>)
    ensures
        final(out)@ == old(out)@ + decimal_digits(n),
    decreases n,
{
    if n >= 10 {
        push_decimal(n / 10, out);
    }
    out.push(48 + (n % 10) as u8);
    proof {
        if n >= 10 {
            assert(old(out)@ + decimal_digits(n) =~= (old(out)@ + decimal_digits(n / 10)).push((48 + n % 10) as u8));
        } else {
            assert(old(out)@ + decimal_digits(n) =~= old(out)@.push((48 + n % 10) as u8));
        }
    }
}

/// `n` in decimal, as the boot screen prints it.
pub fn format_decimal_u64(n: u64) -> (r: Vec<u8>)
    ensures
        r@ == decimal_digits(n),
{
    let mut out: Vec<u8> = Vec::new();
    push_decimal(n, &mut out);
    proof {
        assert(out@ =~= decimal_digits(n));
    }
    out
}

/// Counts timer interrupts; every hundredth is reported.
pub struct TickCounter {
    pub ticks: u64,
}

impl TickCounter {
    /// No tick yet.
    pub fn new() -> (r: TickCounter)
        ensures
            r.ticks == 0,
    {
        TickCounter { ticks: 0 }
    }

    /// Count one tick (the count wraps past the top); whether this one is
    /// to be reported.
    pub fn tick(&mut self) -> (r: bool)
        ensures
            final(self).ticks == old(self).ticks.wrapping_add(1),
            r == (final(self).ticks % 100 == 0),
    {
        self.ticks = self.ticks.wrapping_add(1);
        self.ticks % 100 == 0
    }
}

/// Whether interrupt `irq` (vector 32-47) came through the slave PIC, which
/// then needs its own end-of-interrupt before the master's.
pub fn needs_slave_eoi(irq: u64) -> (r: bool)
    ensures
        r == (irq >= 40),
{
    irq >= 40
}

} // verus!
