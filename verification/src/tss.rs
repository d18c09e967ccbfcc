//! The x86_64 task state segment: ring-0 stack and interrupt stack table.
use vstd::prelude::*;

verus! {

/// Size in bytes of the packed task state segment.
pub const TSS_SIZE: u16 = 104;

/// Interrupt stack table slot of the double-fault handler.
pub const IST_DOUBLE_FAULT: usize = 1;

/// Interrupt stack table slot of the NMI handler.
pub const IST_NMI: usize = 2;

/// Interrupt stack table slot of the machine-check handler.
pub const IST_MACHINE_CHECK: usize = 3;

/// Interrupt stack table slot of the debug handler.
pub const IST_DEBUG: usize = 4;

/// Interrupt stack table slot of the page-fault handler.
pub const IST_PAGE_FAULT: usize = 5;

/// The task state segment.
#[derive(Clone, Copy, Debug)]
pub struct TaskStateSegment {
    pub reserved0: u32,
    pub rsp0: u64,
    pub rsp1: u64,
    pub rsp2: u64,
    pub reserved1: u64,
    pub ist1: u64,
    pub ist2: u64,
    pub ist3: u64,
    pub ist4: u64,
    pub ist5: u64,
    pub ist6: u64,
    pub ist7: u64,
    pub reserved2: u64,
    pub reserved3: u16,
    pub iopb_offset: u16,
}

/// Interrupt stack table slot `index` (1 ..= 7) of `t`; 0 for other indices.
pub open spec fn ist_of(t: TaskStateSegment, index: int) -> u64 {
    if index == 1 {
        t.ist1
    } else if index == 2 {
        t.ist2
    } else if index == 3 {
        t.ist3
    } else if index == 4 {
        t.ist4
    } else if index == 5 {
        t.ist5
    } else if index == 6 {
        t.ist6
    } else if index == 7 {
        t.ist7
    } else {
        0
    }
}

/// `t2` equals `t1` apart from the interrupt stack table.
pub open spec fn same_but_ist(t1: TaskStateSegment, t2: TaskStateSegment) -> bool {
    &&& t2.reserved0 == t1.reserved0
    &&& t2.rsp0 == t1.rsp0
    &&& t2.rsp1 == t1.rsp1
    &&& t2.rsp2 == t1.rsp2
    &&& t2.reserved1 == t1.reserved1
    &&& t2.reserved2 == t1.reserved2
    &&& t2.reserved3 == t1.reserved3
    &&& t2.iopb_offset == t1.iopb_offset
}

impl TaskStateSegment {
    /// All zero, with the I/O permission bitmap placed past the segment
    /// (offset 104: no bitmap).
    pub fn new() -> (r: TaskStateSegment)
        ensures
            r.rsp0 == 0 && r.rsp1 == 0 && r.rsp2 == 0,
            forall|i: int| 1 <= i <= 7 ==> #[trigger] ist_of(r, i) == 0,
            r.reserved0 == 0 && r.reserved1 == 0 && r.reserved2 == 0 && r.reserved3 == 0,
            r.iopb_offset == TSS_SIZE,
    {
        TaskStateSegment {
            reserved0: 0,
            rsp0: 0,
            rsp1: 0,
            rsp2: 0,
            reserved1: 0,
            ist1: 0,
            ist2: 0,
            ist3: 0,
            ist4: 0,
            ist5: 0,
            ist6: 0,
            ist7: 0,
            reserved2: 0,
            reserved3: 0,
            iopb_offset: TSS_SIZE,
        }
    }

    /// Set the ring-0 stack pointer.
    pub fn set_rsp0(&mut self, stack_ptr: u64)
        ensures
            *final(self) == (TaskStateSegment { rsp0: stack_ptr, ..*old(self) }),
    {
        self.rsp0 = stack_ptr;
    }

    /// The ring-0 stack pointer.
    pub fn get_rsp0(&self) -> (r: u64)
        ensures
            r == self.rsp0,
    {
        self.rsp0
    }

    /// Set interrupt stack table slot `index`, which must be 1 ..= 7.
    pub fn set_ist(&mut self, index: usize, stack_ptr: u64)
        requires
            1 <= index <= 7,
        ensures
            same_but_ist(*old(self), *final(self)),
            forall|i: int| 1 <= i <= 7 ==> #[trigger] ist_of(*final(self), i) == if i == index {
                stack_ptr
            } else {
                ist_of(*old(self), i)
            },
    {
        match index {
            1 => self.ist1 = stack_ptr,
            2 => self.ist2 = stack_ptr,
            3 => self.ist3 = stack_ptr,
            4 => self.ist4 = stack_ptr,
            5 => self.ist5 = stack_ptr,
            6 => self.ist6 = stack_ptr,
            7 => self.ist7 = stack_ptr,
            _ => {},
        }
    }

    /// Interrupt stack table slot `index` (1 ..= 7); 0 for other indices.
    pub fn get_ist(&self, index: usize) -> (r: u64)
        ensures
            r == ist_of(*self, index as int),
    {
        match index {
            1 => self.ist1,
            2 => self.ist2,
            3 => self.ist3,
            4 => self.ist4,
            5 => self.ist5,
            6 => self.ist6,
            7 => self.ist7,
            _ => 0,
        }
    }
}

} // verus!
