//! Verified memory-management and descriptor-table logic of the Nafuraito kernel.
#![allow(unused_imports)]

pub mod allocator;
pub mod ata;
pub mod bitmap;
pub mod boot_info;
pub mod cow;
pub mod demand_paging;
pub mod e820;
pub mod ext4;
pub mod ext4_fs;
pub mod gdt;
pub mod guard_page;
pub mod heap;
pub mod gdt_long_mode;
pub mod idt;
pub mod interrupts;
pub mod mem_ops;
pub mod memory_error;
pub mod msi;
pub mod paging;
pub mod pat;
pub mod pci;
pub mod pic;
pub mod tss;
pub mod pmm;
pub mod zones;

pub mod video;
pub mod slab;
