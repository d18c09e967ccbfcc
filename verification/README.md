# nafuraito

The logic of the Nafuraito x86_64 kernel as a Verus library: every function
in `src/` carries a contract that Verus proves.

- Memory: the E820 map (`e820`), zones (`zones`), the frame allocator
  (`pmm`, over a byte bitmap, `bitmap`), page tables (`paging`, over a model
  of the identity-mapped memory that holds them), copy-on-write (`cow`),
  demand paging (`demand_paging`), guard pages (`guard_page`), the page
  attribute table (`pat`), slab pages (`slab`), the kernel heap (`heap`),
  the allocator in front of it (`allocator`) and byte routines (`mem_ops`).
- Descriptor tables: `gdt`, `gdt_long_mode`, `tss`, `idt`.
- Devices: the interrupt controllers (`pic`), PCI configuration space and
  BARs (`pci`), MSI and MSI-X (`msi`), the ATA command sequences (`ata`),
  the framebuffer pixel format (`video`).
- The ext4 filesystem: on-disk structures (`ext4`) and the driver with its
  JBD2 journal over any `BlockDevice` (`ext4_fs`).
- Boot information and fault reporting: `boot_info`, `interrupts`,
  `memory_error`.

Hardware access stays outside the library: register and port I/O produce
values the library decides on, and the library returns the writes to make.
`app/` holds that glue and the boot sequence; `tests/` exercises the
library on concrete machines, maps, disks and configuration headers.
