use nafuraito::msi::{
    create_msi_messages, create_msi_messages_lowest_priority, device_supports_msi_or_msix, interrupt_setup,
    msi_is_pending, msi_pending_offset, InterruptSetup, MsiCapability, MsiMessage, MsixCapability, MsixController,
    VectorAllocator,
};
use nafuraito::pci::{
    bar_layout, bar_offset, config_merge16, config_merge8, config_read16_from, config_read8_from, decode_bar,
    enumeration_buses, further_functions, pci_find_capability, BarLayout, BarType, CapabilityIterator, PciAddress,
    PciDevice, PciDeviceTable,
};

/// A 256-byte header of an NVMe controller (8086:F1A5, class 01/08) with an
/// MSI capability at 0x50 and an MSI-X capability at 0x70.
fn nvme_config() -> Vec<u8> {
    let mut c = vec![0u8; 256];
    c[0] = 0x86;
    c[1] = 0x80;
    c[2] = 0xA5;
    c[3] = 0xF1;
    c[6] = 0x10; // capability list present
    c[8] = 0x03;
    c[9] = 0x02;
    c[0x0A] = 0x08;
    c[0x0B] = 0x01;
    c[0x0E] = 0x80;
    c[0x34] = 0x52; // low two bits ignored
    c[0x50] = 0x05;
    c[0x51] = 0x70;
    c[0x70] = 0x11;
    c[0x71] = 0x00;
    c
}

#[test]
fn config_address_and_ecam() {
    let a = PciAddress::new(1, 0x22, 0x0B);
    assert_eq!((a.device, a.function), (0x02, 0x03));
    assert_eq!(a.config_address(0x13), 0x8001_1310);
    assert_eq!(a.ecam_address(0xE000_0000, 0x40), 0xE000_0000 + 0x10_0000 + 2 * 0x8000 + 3 * 0x1000 + 0x40);
}

#[test]
fn config_register_halves_and_bytes() {
    let d: u32 = 0xAABB_CCDD;
    assert_eq!(config_read16_from(d, 0), 0xCCDD);
    assert_eq!(config_read16_from(d, 2), 0xAABB);
    assert_eq!(config_read8_from(d, 1), 0xCC);
    assert_eq!(config_read8_from(d, 3), 0xAA);
    assert_eq!(config_merge16(d, 2, 0x1234), 0x1234_CCDD);
    assert_eq!(config_merge16(d, 0, 0x1234), 0xAABB_1234);
    assert_eq!(config_merge8(d, 1, 0x55), 0xAABB_55DD);
    // A write then a read of the same half gives the value back.
    assert_eq!(config_read16_from(config_merge16(d, 2, 0xBEEF), 2), 0xBEEF);
}

#[test]
fn bar_decoding() {
    assert_eq!(bar_offset(2), 0x18);
    assert_eq!(bar_layout(6, 0x1), BarLayout::Absent);
    assert_eq!(bar_layout(0, 0), BarLayout::Absent);
    assert_eq!(bar_layout(0, 0xC001), BarLayout::Io);
    assert_eq!(bar_layout(0, 0xFEB0_0000), BarLayout::Memory32);
    assert_eq!(bar_layout(4, 0xFEB0_000C), BarLayout::Memory64);
    assert_eq!(bar_layout(5, 0xFEB0_000C), BarLayout::Absent);
    let io = decode_bar(0, 0xC001, 0, 0xFFFF_FFE1, 0);
    assert_eq!(io.bar_type, BarType::IoSpace);
    assert_eq!(io.base_address, 0xC000);
    assert_eq!(io.size, 0x20);
    // The 32-bit size is the complement of the probe in 32 bits.
    let m32 = decode_bar(1, 0xFEB0_0008, 0, 0xFFFF_F000, 0);
    assert_eq!(m32.bar_type, BarType::Memory32);
    assert_eq!(m32.base_address, 0xFEB0_0000);
    assert_eq!(m32.size, 0x1000);
    assert!(m32.prefetchable);
    let m64 = decode_bar(2, 0x0000_000C, 0x1, 0xFFFF_C000, 0xFFFF_FFFF);
    assert_eq!(m64.bar_type, BarType::Memory64);
    assert_eq!(m64.base_address, 0x1_0000_0000);
    assert_eq!(m64.size, 0x4000);
    assert_eq!(decode_bar(1, 0xFEB0_0000, 0, 0, 0).size, 0);
    let none = decode_bar(5, 0x0000_000C, 0, 0, 0);
    assert_eq!(none.bar_type, BarType::NotPresent);
}

#[test]
fn capability_search_and_walk() {
    let c = nvme_config();
    assert_eq!(pci_find_capability(&c, 0x05), Some(0x50));
    assert_eq!(pci_find_capability(&c, 0x11), Some(0x70));
    assert_eq!(pci_find_capability(&c, 0x10), None);
    let mut no_list = c.clone();
    no_list[6] = 0;
    assert_eq!(pci_find_capability(&no_list, 0x05), None);
    assert!(CapabilityIterator::new(no_list).is_none());
    let mut it = CapabilityIterator::new(c).unwrap();
    let first = it.next().unwrap();
    assert_eq!((first.id, first.offset), (0x05, 0x50));
    let second = it.next().unwrap();
    assert_eq!((second.id, second.offset), (0x11, 0x70));
    assert!(it.next().is_none());
    // A capability list that loops on itself ends after 48 links.
    let mut looping = nvme_config();
    looping[0x71] = 0x50;
    assert_eq!(pci_find_capability(&looping, 0x10), None);
    let mut walk = CapabilityIterator::new(looping).unwrap();
    let mut seen = 0;
    while walk.next().is_some() {
        seen += 1;
    }
    assert_eq!(seen, 48);
}

#[test]
fn device_read_and_table() {
    let addr = PciAddress::new(0, 3, 0);
    let dev = PciDevice::read(&addr, &nvme_config()).unwrap();
    assert_eq!((dev.vendor_id, dev.device_id), (0x8086, 0xF1A5));
    assert_eq!((dev.class_code, dev.subclass, dev.prog_if, dev.revision_id), (0x01, 0x08, 0x02, 0x03));
    assert_eq!((dev.msi_cap_offset, dev.msix_cap_offset), (0x50, 0x70));
    assert!(dev.is_multi_function());
    assert!(dev.supports_msi() && dev.supports_msix());
    assert!(!dev.is_pci_bridge());
    assert!(device_supports_msi_or_msix(&dev));
    let mut empty = vec![0u8; 256];
    empty[0] = 0xFF;
    empty[1] = 0xFF;
    assert!(PciDevice::read(&addr, &empty).is_none());
    let mut t = PciDeviceTable::new();
    t.add(dev);
    assert_eq!(t.pci_get_device_count(), 1);
    assert_eq!(t.pci_find_device(0x8086, 0xF1A5).unwrap().address.device, 3);
    assert!(t.pci_find_device(0x8086, 0x0001).is_none());
    assert_eq!(t.pci_find_device_by_class(0x01, 0x08).unwrap().vendor_id, 0x8086);
    assert!(t.pci_get_device(1).is_none());
}

#[test]
fn msi_messages() {
    let m = MsiMessage::new(0x40, 2);
    assert_eq!(m.address_low(), 0xFEE0_2000);
    assert_eq!(m.address_high(), 0);
    assert_eq!(m.address(), 0xFEE0_2000);
    assert_eq!(m.data(), 0x0040);
    let lp = MsiMessage::lowest_priority(0x41);
    assert_eq!(lp.address_low(), 0xFEE0_000C);
    assert_eq!(lp.data(), 0x0141);
    let msgs = create_msi_messages(0xFE, 3, 1);
    assert_eq!(msgs.len(), 32);
    assert_eq!(msgs[1].vector, 0xFF);
    assert_eq!(msgs[2].vector, 0x00);
    assert_eq!(msgs[2].dest_id, 1);
    assert_eq!((msgs[3].vector, msgs[3].dest_id), (0, 0));
    let lps = create_msi_messages_lowest_priority(0x30, 2);
    assert_eq!(lps[1].data(), 0x0131);
}

#[test]
fn msi_capability_fields() {
    let cap = MsiCapability::read(0x50, 0x01A7);
    assert_eq!(cap.max_vectors, 8);
    assert!(cap.is_64bit);
    assert!(cap.per_vector_mask);
    assert!(cap.is_enabled(0x0001));
    assert_eq!(cap.allocated_vectors(0x0020), 4);
}

#[test]
fn interrupt_setup_choice_and_vectors() {
    let dev = PciDevice::read(&PciAddress::new(0, 3, 0), &nvme_config()).unwrap();
    assert_eq!(interrupt_setup(&dev, 4, Some(2)), InterruptSetup::Msix { count: 2 });
    assert_eq!(interrupt_setup(&dev, 1, None), InterruptSetup::MsiSingle);
    assert_eq!(interrupt_setup(&dev, 3, None), InterruptSetup::MsiMulti { requested: 3 });
    assert_eq!(interrupt_setup(&dev, 0, None), InterruptSetup::NotConfigured);
    let mut v = VectorAllocator::new();
    assert_eq!(v.allocate_vectors(4), Some(48));
    assert_eq!(v.allocate_vectors(4), Some(52));
    assert_eq!(v.allocate_vectors(200), None);
    assert_eq!(v.next, 56);
}

#[test]
fn pending_bits_and_enumeration_order() {
    let dev = PciDevice::read(&PciAddress::new(0, 3, 0), &nvme_config()).unwrap();
    assert_eq!(msi_pending_offset(&dev, 0x0180), Some(0x50 + 0x14));
    assert_eq!(msi_pending_offset(&dev, 0x0000), None);
    assert!(msi_is_pending(&dev, 0x0100, 0b100, 2));
    assert!(!msi_is_pending(&dev, 0x0100, 0b100, 1));
    assert!(!msi_is_pending(&dev, 0x0000, 0xFFFF_FFFF, 1));
    let cap = MsixCapability { offset: 0x70, table_size: 70, table_bar: 0, table_offset: 0, pba_bar: 0, pba_offset: 0x800 };
    let ctl = MsixController { capability: cap, table_addr: 0xFEB0_0000, pba_addr: 0xFEB0_0800 };
    assert_eq!(ctl.pba_qword_addr(65), 0xFEB0_0808);
    assert!(ctl.msix_is_pending(65, 0b10));
    assert!(!ctl.msix_is_pending(64, 0b10));
    assert!(!ctl.msix_is_pending(70, u64::MAX));
    assert_eq!(enumeration_buses(0x00, &vec![true; 8]), vec![0]);
    assert_eq!(enumeration_buses(0x80, &vec![true, false, true, false, false, false, false, true]), vec![0, 2, 7]);
    assert_eq!(further_functions(0x80), vec![1, 2, 3, 4, 5, 6, 7]);
    assert!(further_functions(0x01).is_empty());
}
