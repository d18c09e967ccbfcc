use nafuraito::cow::{dec_refcount, get_refcount, inc_refcount, init, is_cow_page, COW_BIT};
use nafuraito::paging::{PageTableFlags, PhysAddr};

#[test]
fn test_refcount_basic() {
    let mut t = init();
    let phys = PhysAddr::new(0x1000);

    assert_eq!(get_refcount(&t, phys), 0);
    assert_eq!(inc_refcount(&mut t, phys), 1);
    assert_eq!(inc_refcount(&mut t, phys), 2);
    assert_eq!(dec_refcount(&mut t, phys), 1);
    assert_eq!(dec_refcount(&mut t, phys), 0);
}

#[test]
fn test_cow_bit() {
    let flags = PageTableFlags::kernel();
    assert!(!is_cow_page(flags));

    let flags = PageTableFlags::from_raw(flags.raw() | COW_BIT);
    assert!(is_cow_page(flags));
}
