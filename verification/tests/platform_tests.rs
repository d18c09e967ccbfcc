use nafuraito::ata::{
    block_request, sector_command, use_lba48, AtaAction, AtaPhase,
    AtaTransfer, Ext4AtaDevice, ATA_WAIT_POLLS,
};
use nafuraito::boot_info::{BootInfo, BOOT_INFO_MAGIC, BOOT_TYPE_BIOS, BOOT_TYPE_UEFI};
use nafuraito::gdt::{init as gdt_boot_init, Gdt, GdtEntry, TssEntry, GDT_SIZE};
use nafuraito::gdt_long_mode::gdt_init;
use nafuraito::idt::{idt_init, init as idt_boot_init, Idt, IdtEntry};
use nafuraito::interrupts::{
    exception_name, format_decimal_u64, format_hex_byte, format_hex_u64, needs_slave_eoi, TickCounter,
};
use nafuraito::mem_ops::{bcmp, memcmp, memcpy, memmove, memset};
use nafuraito::memory_error::{format_size, MemoryError};
use nafuraito::pat::{MemoryType, PatConfig};
use nafuraito::pic::{mask_port, mask_value, remap, send_eoi};
use nafuraito::tss::TaskStateSegment;
use nafuraito::video::{display_setup, DisplaySetup, Pixel, PixelRgb, COLOR_ORANGE};
use nafuraito::zones::MemoryZone;

#[test]
fn gdt_segments_have_expected_descriptors() {
    let code = GdtEntry::kernel_code_segment();
    assert_eq!(code.limit_low, 0xFFFF);
    assert_eq!(code.access, 0x9A);
    assert_eq!(code.flags_limit_high, 0xAF);
    assert_eq!((code.base_low, code.base_middle, code.base_high), (0, 0, 0));
    let data = GdtEntry::user_data_segment();
    assert_eq!(data.access, 0xF2);
    assert_eq!(data.flags_limit_high, 0xCF);
    let e = GdtEntry::new(0x1234_5678, 0xABCDE, 0x92, 0x0C);
    assert_eq!(e.limit_low, 0xBCDE);
    assert_eq!(e.base_low, 0x5678);
    assert_eq!(e.base_middle, 0x34);
    assert_eq!(e.base_high, 0x12);
    assert_eq!(e.flags_limit_high, 0xCA);
}

#[test]
fn gdt_tss_descriptor_splits_the_address() {
    let t = TssEntry::new(0x1234_5678_9ABC, 104);
    assert_eq!(t.low.limit_low, 0x67);
    assert_eq!(t.low.base_low, 0x9ABC);
    assert_eq!(t.low.base_middle, 0x78);
    assert_eq!(t.low.base_high, 0x56);
    assert_eq!(t.low.access, 0x89);
    assert_eq!(t.base_upper, 0x1234);
    let mut g = Gdt::new();
    g.set_tss(0x5000);
    assert_eq!(g.tss.low.base_low, 0x5000);
    let p = g.pointer(0x7000);
    assert_eq!(p.limit, GDT_SIZE - 1);
    assert_eq!(p.base, 0x7000);
}

#[test]
fn gdt_init_sets_up_stacks() {
    let (g, tss, p) = gdt_boot_init(0x8000, 0x9000);
    assert_eq!(tss.rsp0, 0x90_0000);
    assert_eq!(tss.ist1, 0x8F_0000);
    assert_eq!(tss.ist3, 0x8D_0000);
    assert_eq!(tss.ist5, 0);
    assert_eq!(g.kernel_code.access, 0x9A);
    assert_eq!(p.base, 0x9000);
    let (_, tss2, _) = gdt_init(0x8000, 0x9000);
    assert_eq!(tss2.ist5, 0x8B_0000);
}

#[test]
fn tss_ist_slots() {
    let mut tss = TaskStateSegment::new();
    tss.set_ist(1, 0x1000);
    tss.set_ist(7, 0x7000);
    assert_eq!(tss.get_ist(1), 0x1000);
    assert_eq!(tss.get_ist(7), 0x7000);
    assert_eq!(tss.get_ist(0), 0);
    assert_eq!(tss.get_ist(8), 0);
    tss.set_rsp0(0x4000);
    assert_eq!(tss.get_rsp0(), 0x4000);
}

#[test]
fn idt_gate_splits_handler_address() {
    let mut e = IdtEntry::new();
    e.set_interrupt_gate(0xFFFF_8000_1234_5678, 0x08, 1, 0);
    assert_eq!(e.offset_low, 0x5678);
    assert_eq!(e.offset_mid, 0x1234);
    assert_eq!(e.offset_high, 0xFFFF_8000);
    assert_eq!(e.selector, 0x08);
    assert_eq!(e.ist, 1);
    assert_eq!(e.type_attr, 0x8E);
    let mut t = IdtEntry::new();
    t.set_trap_gate(0x1000, 0x08, 9, 3);
    assert_eq!(t.type_attr, 0xEF);
    assert_eq!(t.ist, 1);
}

#[test]
fn idt_table_and_boot_init() {
    let mut idt = Idt::new();
    idt.set_interrupt_gate(0x20, 0xABCD, 0x08, 0);
    idt.set_trap_gate(300, 0xABCD, 0x08, 0);
    let e = idt.entry(0x20).unwrap();
    assert_eq!(e.offset_low, 0xABCD);
    assert_eq!(e.type_attr, 0x8E);
    assert!(idt.entry(256).is_none());
    assert_eq!(idt.pointer(0x3000).limit, 4095);
    let isr: Vec<u64> = (0..32).map(|i| 0x1000 + i as u64 * 16).collect();
    let irq: Vec<u64> = (0..16).map(|i| 0x2000 + i as u64 * 16).collect();
    let (boot, p) = idt_boot_init(&isr, &irq, 0x5000);
    assert_eq!(p.base, 0x5000);
    // Page faults run on stack 5, double faults on 1, NMIs on 2.
    assert_eq!(boot.entry(14).unwrap().ist, 5);
    assert_eq!(boot.entry(8).unwrap().ist, 1);
    assert_eq!(boot.entry(2).unwrap().ist, 2);
    assert_eq!(boot.entry(32).unwrap().offset_low, 0x2000);
    assert_eq!(boot.entry(48).unwrap().type_attr, 0);
    let (plain, _) = idt_init(&isr, &irq, 0x5000);
    assert_eq!(plain.entry(14).unwrap().ist, 0);
}

#[test]
fn pic_writes_and_masks() {
    let w = remap(0x20, 0x28);
    assert_eq!(w.len(), 10);
    assert_eq!((w[0].port, w[0].value), (0x20, 0x11));
    assert_eq!((w[2].port, w[2].value), (0x21, 0x20));
    assert_eq!((w[3].port, w[3].value), (0xA1, 0x28));
    let eoi = send_eoi(10);
    assert_eq!(eoi.len(), 2);
    assert_eq!((eoi[0].port, eoi[0].value), (0xA0, 0x20));
    assert_eq!(send_eoi(3).len(), 1);
    assert_eq!(mask_port(3), 0x21);
    assert_eq!(mask_port(12), 0xA1);
    assert_eq!(mask_value(0x00, 12, true), 0x10);
    assert_eq!(mask_value(0xFF, 3, false), 0xF7);
}

#[test]
fn ata_commands_and_waits() {
    let w = sector_command(0x12_3456, false, false);
    let last = w[w.len() - 1];
    assert_eq!((last.port, last.value), (0x1F7, 0x20));
    assert!(w.iter().any(|x| x.port == 0x1F3 && x.value == 0x56));
    assert!(w.iter().any(|x| x.port == 0x1F6 && x.value == 0xE0));
    let w48 = sector_command(0x1_0000_0000, true, true);
    let last48 = w48[w48.len() - 1];
    assert_eq!((last48.port, last48.value), (0x1F7, 0x34));
    assert!(use_lba48(0x1000_0000));
    assert!(!use_lba48(0x0FFF_FFFF));
    let dev = Ext4AtaDevice::new();
    assert_eq!(block_request(&dev, 3, 4096), Some((2048 + 24, 8)));
    assert_eq!(block_request(&dev, 3, 100), None);
}

#[test]
fn formats_for_fault_reports() {
    assert_eq!(format_hex_u64(0x1234_ABCD), b"0x000000001234ABCD".to_vec());
    assert_eq!(format_hex_byte(0x3C), b"3C".to_vec());
    assert_eq!(format_decimal_u64(0), b"0".to_vec());
    assert_eq!(format_decimal_u64(18_446_744_073_709_551_615), b"18446744073709551615".to_vec());
    assert_eq!(format_decimal_u64(1024), b"1024".to_vec());
    assert_eq!(exception_name(14), "Page Fault");
    assert_eq!(exception_name(0), "Divide Error");
    assert!(needs_slave_eoi(40));
    assert!(!needs_slave_eoi(33));
    let mut t = TickCounter::new();
    let mut reports = 0;
    for _ in 0..250 {
        if t.tick() {
            reports += 1;
        }
    }
    assert_eq!(reports, 2);
}

#[test]
fn sizes_and_errors() {
    assert_eq!(format_size(512), (512, "B"));
    assert_eq!(format_size(2048), (2, "KB"));
    assert_eq!(format_size(5 * 1024 * 1024), (5, "MB"));
    assert_eq!(format_size(3 * 1024 * 1024 * 1024), (3, "GB"));
    let e = MemoryError::new(7, "boom", true);
    assert_eq!((e.code, e.message, e.fatal), (7, "boom", true));
}

#[test]
fn boot_info_reports_boot_type() {
    let mut b = BootInfo::new();
    b.init(BOOT_INFO_MAGIC, BOOT_TYPE_UEFI, 0xE0000, 12);
    assert!(b.is_uefi_boot());
    assert!(!b.is_bios_boot());
    assert_eq!(b.get_rsdp_addr(), 0xE0000);
    assert_eq!(b.get_mem_entry_count(), 12);
    assert_eq!(b.boot_type_str(), "UEFI");
    let mut c = BootInfo::new();
    c.init(BOOT_INFO_MAGIC, BOOT_TYPE_BIOS, 0, 3);
    assert_eq!(c.boot_type_str(), "BIOS/MBR");
    let d = BootInfo::new();
    assert_eq!(d.boot_type_str(), "Unknown");
    assert_eq!(c.get_boot_type(), BOOT_TYPE_BIOS);
}

#[test]
fn pixel_colour_roundtrip() {
    let p = Pixel::from_rgb(3, 4, COLOR_ORANGE);
    assert_eq!((p.r, p.g, p.b), (0xFF, 0xA5, 0x00));
    assert_eq!(p.to_rgb(), COLOR_ORANGE);
    let q = Pixel::new(0, 0, 0x12, 0x34, 0x56);
    assert_eq!(q.to_rgb(), 0x12_3456);
    let s = PixelRgb::sentinel();
    let n = PixelRgb::new(1, 2, 0xABCDEF);
    assert_eq!(n.color, 0xABCDEF);
    assert_eq!((s.x, s.y, s.color), (0xFFFF, 0, 0));
}

#[test]
fn pat_msr_roundtrip() {
    let d = PatConfig::default();
    assert_eq!(d.to_msr_value(), 0x0007_0406_0007_0406);
    let o = PatConfig::optimized();
    let back = PatConfig::from_msr_value(o.to_msr_value());
    assert_eq!(back.to_msr_value(), o.to_msr_value());
    assert_eq!(MemoryType::from_u8(1).map(|m| m.value()), Some(1));
    assert!(MemoryType::from_u8(2).is_none());
    assert!(MemoryType::from_u8(9).is_none());
}

#[test]
fn zones_by_address() {
    assert_eq!(MemoryZone::from_address(0x10_0000).index(), MemoryZone::Dma.index());
    assert_eq!(MemoryZone::from_address(0x100_0000).index(), MemoryZone::Dma32.index());
    assert_eq!(MemoryZone::from_address(0x1_0000_0000).index(), MemoryZone::Normal.index());
    assert_eq!(MemoryZone::Dma32.start_address(), 0x100_0000);
    assert_eq!(MemoryZone::Dma32.end_address(), 0x1_0000_0000);
    assert!(MemoryZone::from_index(4).is_none());
}

#[test]
fn byte_routines() {
    let mut buf = vec![9u8; 8];
    memset(&mut buf, 0x1AB, 5);
    assert_eq!(buf, vec![0xAB, 0xAB, 0xAB, 0xAB, 0xAB, 9, 9, 9]);
    memcpy(&mut buf, &[1, 2, 3], 2);
    assert_eq!(&buf[..3], &[1, 2, 0xAB]);
    assert_eq!(memcmp(&[1, 2, 3], &[1, 2, 3], 3), 0);
    assert_eq!(memcmp(&[1, 5, 3], &[1, 2, 9], 3), 3);
    assert_eq!(bcmp(&[1, 2, 3], &[1, 2, 9], 3), -6);
    assert_eq!(bcmp(&[1, 2, 3], &[1, 2, 9], 2), 0);
    let mut m: Vec<u8> = (0..10).collect();
    memmove(&mut m, 2, 0, 5);
    assert_eq!(m, vec![0, 1, 0, 1, 2, 3, 4, 7, 8, 9]);
    let mut n: Vec<u8> = (0..10).collect();
    memmove(&mut n, 0, 3, 5);
    assert_eq!(n, vec![3, 4, 5, 6, 7, 5, 6, 7, 8, 9]);
}

#[test]
fn ata_transfer_runs_two_sectors() {
    let (mut t, a) = AtaTransfer::begin(100, 2, false);
    assert_eq!(a, AtaAction::ReadStatus);
    assert_eq!(t.on_status(0x80), AtaAction::ReadStatus);
    assert_eq!(t.polls, ATA_WAIT_POLLS - 1);
    assert_eq!(t.on_status(0x40), AtaAction::IssueCommand);
    let w = t.command();
    assert_eq!(w[2].value, 100);
    assert_eq!((w[5].port, w[5].value), (0x1F7, 0x20));
    assert_eq!(t.on_status(0x88), AtaAction::ReadStatus);
    assert_eq!(t.on_status(0x08), AtaAction::MoveSector(0));
    assert_eq!(t.on_data_moved(), AtaAction::ReadStatus);
    assert_eq!(t.sector, 1);
    assert_eq!(t.on_status(0x50), AtaAction::IssueCommand);
    assert_eq!(t.command()[2].value, 101);
    assert_eq!(t.on_status(0x58), AtaAction::MoveSector(1));
    assert_eq!(t.on_data_moved(), AtaAction::Finish(true));
    assert_eq!(t.phase, AtaPhase::Finished);
    assert_eq!(t.on_status(0x00), AtaAction::Finish(true));
}

#[test]
fn ata_transfer_edge_cases() {
    let (t, a) = AtaTransfer::begin(5, 0, true);
    assert_eq!(a, AtaAction::Finish(true));
    assert!(t.succeeded);
    let (_, a) = AtaTransfer::begin(0x1_0000_0000_0000, 1, false);
    assert_eq!(a, AtaAction::Finish(false));
    let (_, a) = AtaTransfer::begin(0x1000_0000, 0x1_0000, false);
    assert_eq!(a, AtaAction::Finish(false));
    let (t, a) = AtaTransfer::begin(0x1000_0000, 1, true);
    assert_eq!(a, AtaAction::ReadStatus);
    assert!(t.lba48);
    assert_eq!(t.command()[9].value, 0x34);
    let (mut t, _) = AtaTransfer::begin(7, 1, false);
    assert_eq!(t.on_status(0x41), AtaAction::Finish(false));
    assert!(!t.succeeded);
    let (mut t, _) = AtaTransfer::begin(7, 1, false);
    let mut last = AtaAction::ReadStatus;
    let mut reads = 0u32;
    while last == AtaAction::ReadStatus {
        last = t.on_status(0x00);
        reads += 1;
    }
    assert_eq!(last, AtaAction::Finish(false));
    assert_eq!(reads, ATA_WAIT_POLLS);
}

#[test]
fn ata_flush_sequence() {
    let (mut t, a) = AtaTransfer::begin_flush(true);
    assert_eq!(a, AtaAction::ReadStatus);
    assert_eq!(t.on_status(0x40), AtaAction::IssueCommand);
    let w = t.command();
    assert_eq!(w.len(), 1);
    assert_eq!((w[0].port, w[0].value), (0x1F7, 0xEA));
    assert_eq!(t.on_status(0xC0), AtaAction::ReadStatus);
    assert_eq!(t.on_status(0x40), AtaAction::Finish(true));
    let (mut t, _) = AtaTransfer::begin_flush(false);
    t.on_status(0x40);
    assert_eq!(t.command()[0].value, 0xE7);
    assert_eq!(t.on_status(0x01), AtaAction::Finish(false));
}

#[test]
fn ata_transfer_switches_to_lba48_past_28_bits() {
    let (mut t, _) = AtaTransfer::begin(0x0FFF_FFFF, 2, false);
    assert_eq!(t.on_status(0x40), AtaAction::IssueCommand);
    let w = t.command();
    assert_eq!(w.len(), 6);
    assert_eq!((w[5].port, w[5].value), (0x1F7, 0x20));
    assert_eq!(t.on_status(0x08), AtaAction::MoveSector(0));
    assert_eq!(t.on_data_moved(), AtaAction::ReadStatus);
    assert_eq!(t.on_status(0x40), AtaAction::IssueCommand);
    let w2 = t.command();
    assert_eq!(w2.len(), 10);
    assert_eq!((w2[2].port, w2[2].value), (0x1F3, 0x10));
    assert_eq!((w2[6].port, w2[6].value), (0x1F3, 0x00));
    assert_eq!((w2[9].port, w2[9].value), (0x1F7, 0x24));
}

#[test]
fn display_setup_and_pat_value_roundtrip() {
    assert_eq!(display_setup(0, 0, 0, 0, 32), DisplaySetup::TextMode);
    assert_eq!(
        display_setup(0xFD00_0000, 4096, 1024, 768, 32),
        DisplaySetup::Framebuffer { addr: 0xFD00_0000, pitch: 4096, width: 1024, height: 768, bytes_per_pixel: 4 }
    );
    assert_eq!(
        display_setup(0x8000_0000, 3200, 800, 600, 4),
        DisplaySetup::Framebuffer { addr: 0x8000_0000, pitch: 3200, width: 800, height: 600, bytes_per_pixel: 4 }
    );
    let v: u64 = 0x0007_0406_0105_0400;
    assert_eq!(PatConfig::from_msr_value(v).to_msr_value(), v);
}
