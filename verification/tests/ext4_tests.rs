use nafuraito::ext4::{Ext4Error, Ext4Inode, SeekFrom};
use nafuraito::ext4_fs::{superblock_from_start, BlockDevice, Ext4DirIterator, Ext4Filesystem};

/// A disk image in memory; block `b` of a transfer of `len` bytes is the
/// bytes at `b * len`.
struct MemDisk {
    bytes: Vec<u8>,
    writes: Vec<(u64, usize)>,
}

impl BlockDevice for MemDisk {
    fn read_block(&self, block: u64, buffer: &mut Vec<u8>) -> Result<(), Ext4Error> {
        let len = buffer.len();
        let start = block as usize * len;
        if start + len > self.bytes.len() {
            return Err(Ext4Error::Io);
        }
        buffer.copy_from_slice(&self.bytes[start..start + len]);
        Ok(())
    }

    fn write_block(&mut self, block: u64, buffer: &Vec<u8>) -> Result<(), Ext4Error> {
        let len = buffer.len();
        let start = block as usize * len;
        if start + len > self.bytes.len() {
            return Err(Ext4Error::Io);
        }
        self.bytes[start..start + len].copy_from_slice(buffer);
        self.writes.push((block, len));
        Ok(())
    }

    fn sync(&mut self) -> Result<(), Ext4Error> {
        Ok(())
    }
}

const BS: usize = 1024;

fn put16(img: &mut [u8], off: usize, v: u16) {
    img[off..off + 2].copy_from_slice(&v.to_le_bytes());
}

fn put32(img: &mut [u8], off: usize, v: u32) {
    img[off..off + 4].copy_from_slice(&v.to_le_bytes());
}

/// An inode using one extent of `len` blocks from `start`.
fn put_inode(img: &mut [u8], inode_num: usize, mode: u16, size: u32, start: u32, len: u16) {
    let off = 5 * BS + (inode_num - 1) * 128;
    put16(img, off, mode);
    put32(img, off + 4, size);
    put32(img, off + 32, 0x8_0000);
    let b = off + 40;
    put16(img, b, 0xF30A);
    put16(img, b + 2, 1);
    put16(img, b + 4, 4);
    put16(img, b + 6, 0);
    put32(img, b + 12, 0);
    put16(img, b + 16, len);
    put16(img, b + 18, 0);
    put32(img, b + 20, start);
}

fn put_dirent(img: &mut [u8], off: usize, inode: u32, rec_len: u16, ftype: u8, name: &[u8]) {
    put32(img, off, inode);
    put16(img, off + 4, rec_len);
    img[off + 6] = name.len() as u8;
    img[off + 7] = ftype;
    img[off + 8..off + 8 + name.len()].copy_from_slice(name);
}

/// A 64 KiB filesystem of 1 KiB blocks: the root directory (block 10)
/// holds `hello.txt` (inode 12, block 11) and `docs` (inode 13, block 12),
/// which holds `readme` (inode 14, blocks 13-14).
fn image() -> Vec<u8> {
    let mut img = vec![0u8; 64 * BS];
    let sb = 1024;
    put32(&mut img, sb, 32);
    put32(&mut img, sb + 4, 64);
    put32(&mut img, sb + 12, 40);
    put32(&mut img, sb + 16, 18);
    put32(&mut img, sb + 24, 0);
    put32(&mut img, sb + 32, 8192);
    put32(&mut img, sb + 40, 32);
    put16(&mut img, sb + 56, 0xEF53);
    put16(&mut img, sb + 88, 128);
    put32(&mut img, sb + 96, 0x40);
    // Group descriptor 0: inode table at block 5.
    put32(&mut img, 2 * BS + 8, 5);
    put_inode(&mut img, 2, 0x41ED, 1024, 10, 1);
    put_inode(&mut img, 12, 0x81A4, 13, 11, 1);
    put_inode(&mut img, 13, 0x41ED, 1024, 12, 1);
    put_inode(&mut img, 14, 0x81A4, 1500, 13, 2);
    let root = 10 * BS;
    put_dirent(&mut img, root, 2, 12, 2, b".");
    put_dirent(&mut img, root + 12, 2, 12, 2, b"..");
    put_dirent(&mut img, root + 24, 12, 20, 1, b"hello.txt");
    put_dirent(&mut img, root + 44, 13, (BS - 44) as u16, 2, b"docs");
    let docs = 12 * BS;
    put_dirent(&mut img, docs, 13, 12, 2, b".");
    put_dirent(&mut img, docs + 12, 2, 12, 2, b"..");
    put_dirent(&mut img, docs + 24, 14, (BS - 24) as u16, 1, b"readme");
    img[11 * BS..11 * BS + 13].copy_from_slice(b"Hello, ext4!\n");
    for i in 0..1500 {
        img[13 * BS + i] = (i % 251) as u8;
    }
    img
}

fn mounted() -> Ext4Filesystem<MemDisk> {
    match Ext4Filesystem::mount(MemDisk { bytes: image(), writes: Vec::new() }) {
        Ok(fs) => fs,
        Err(e) => panic!("mount failed: {:?}", e),
    }
}

#[test]
fn ext4_mount_reads_geometry_and_stats() {
    let fs = mounted();
    assert_eq!(fs.geometry.block_size, 1024);
    assert_eq!(fs.geometry.group_count, 1);
    assert_eq!(fs.geometry.inode_size, 128);
    assert!(fs.geometry.use_extents);
    assert!(fs.journal.is_none());
    let st = fs.statfs();
    assert_eq!((st.total_blocks, st.free_blocks, st.total_inodes, st.free_inodes), (64, 40, 32, 18));
}

#[test]
fn ext4_mount_refuses_bad_magic() {
    let mut img = image();
    img[1024 + 56] = 0;
    assert!(matches!(
        Ext4Filesystem::mount(MemDisk { bytes: img, writes: Vec::new() }),
        Err(Ext4Error::InvalidMagic)
    ));
    let mut img2 = image();
    put32(&mut img2, 1024 + 32, 0);
    assert!(matches!(
        Ext4Filesystem::mount(MemDisk { bytes: img2, writes: Vec::new() }),
        Err(Ext4Error::Invalid)
    ));
}

#[test]
fn ext4_lookup_paths() {
    let fs = mounted();
    assert_eq!(fs.lookup_path(&b"/".to_vec()), Ok(2));
    assert_eq!(fs.lookup_path(&b"".to_vec()), Ok(2));
    assert_eq!(fs.lookup_path(&b"/hello.txt".to_vec()), Ok(12));
    assert_eq!(fs.lookup_path(&b"//docs//readme".to_vec()), Ok(14));
    assert_eq!(fs.lookup_path(&b"/docs/missing".to_vec()), Err(Ext4Error::NotFound));
    assert_eq!(fs.lookup_path(&b"/hello".to_vec()), Err(Ext4Error::NotFound));
    let st = fs.stat(&b"/docs/readme".to_vec()).unwrap();
    assert_eq!(st.size(), 1500);
    assert!(st.is_file());
    assert!(fs.stat(&b"/docs".to_vec()).unwrap().is_dir());
}

#[test]
fn ext4_read_files() {
    let fs = mounted();
    let mut h = fs.open(&b"/hello.txt".to_vec(), 0).unwrap();
    let mut buf = vec![0u8; 64];
    assert_eq!(h.read(&fs, &mut buf), Ok(13));
    assert_eq!(&buf[..13], b"Hello, ext4!\n");
    assert_eq!(h.tell(), 13);
    assert_eq!(h.read(&fs, &mut buf), Ok(0));
    assert_eq!(h.seek(7, SeekFrom::Start), Ok(7));
    let mut five = vec![0u8; 5];
    assert_eq!(h.read(&fs, &mut five), Ok(5));
    assert_eq!(&five, b"ext4!");
    assert_eq!(h.seek(-3, SeekFrom::End), Ok(10));
    assert_eq!(h.seek(-20, SeekFrom::Current), Err(Ext4Error::Invalid));
    // A read across the block boundary of a two-block file.
    let m = fs.open_mmap_file(&b"/docs/readme".to_vec()).unwrap();
    assert_eq!(m.size(), 1500);
    let mut span = vec![0u8; 100];
    assert_eq!(m.read_at_into(&fs, 1000, &mut span), Ok(100));
    for (k, b) in span.iter().enumerate() {
        assert_eq!(*b, ((1000 + k) % 251) as u8);
    }
    let mut tail = vec![0u8; 100];
    assert_eq!(m.read_at_into(&fs, 1450, &mut tail), Ok(50));
    assert_eq!(m.read_at_into(&fs, 1500, &mut tail), Ok(0));
}

#[test]
fn ext4_directory_walk() {
    let fs = mounted();
    let mut it = Ext4DirIterator::new(&fs, &b"/".to_vec()).unwrap();
    let mut names: Vec<Vec<u8>> = Vec::new();
    loop {
        match it.read(&fs) {
            Ok(e) => names.push(e.name_bytes().clone()),
            Err(Ext4Error::NotFound) => break,
            Err(e) => panic!("walk failed: {:?}", e),
        }
    }
    assert_eq!(names, vec![b".".to_vec(), b"..".to_vec(), b"hello.txt".to_vec(), b"docs".to_vec()]);
}

#[test]
fn ext4_inode_reads() {
    let fs = mounted();
    let root: Ext4Inode = fs.read_inode(2).unwrap();
    assert!(root.is_dir());
    assert!(root.uses_extents());
    assert_eq!(fs.read_inode(0).err(), Some(Ext4Error::Invalid));
    assert_eq!(fs.read_inode(33).err(), Some(Ext4Error::Invalid));
    assert_eq!(fs.get_block(&root, 0), Ok(10));
    let readme = fs.read_inode(14).unwrap();
    assert_eq!(fs.get_block(&readme, 1), Ok(14));
    assert_eq!(fs.get_block(&readme, 2), Err(Ext4Error::NotFound));
}

#[test]
fn ext4_writes_and_unmount() {
    let mut fs = mounted();
    let data = vec![7u8; 1024];
    assert_eq!(fs.write_block(20, &data), Ok(()));
    assert_eq!(fs.device.bytes[20 * 1024], 7);
    // Without a journal, a journaled write goes straight to disk.
    assert_eq!(fs.write_block_journaled(21, &data), Ok(()));
    assert_eq!(fs.device.bytes[21 * 1024 + 5], 7);
    assert_eq!(fs.journal_commit(), Ok(()));
    assert_eq!(fs.unmount(), Ok(()));
}

#[test]
fn ext4_inode_encode_decode_and_write() {
    let mut fs = mounted();
    let mut ino = fs.read_inode(12).unwrap();
    let mut buf = vec![0xEEu8; 400];
    ino.write_to(&mut buf, 100);
    assert_eq!(buf[99], 0xEE);
    assert_eq!(buf[260], 0xEE);
    let back = Ext4Inode::parse(&buf, 100);
    assert_eq!(back.i_mode, ino.i_mode);
    assert_eq!(back.i_block, ino.i_block);
    assert_eq!(back.size(), 13);
    ino.i_size_lo = 5;
    ino.i_uid = 1000;
    assert_eq!(fs.write_inode(12, &ino), Ok(()));
    let again = fs.read_inode(12).unwrap();
    assert_eq!(again.size(), 5);
    assert_eq!(again.uid(), 1000);
    assert_eq!(fs.write_inode(0, &ino), Err(Ext4Error::Invalid));
    assert_eq!(fs.write_inode(40, &ino), Err(Ext4Error::Invalid));
}

#[test]
fn ext4_lookups_settled_before_reading() {
    let fs = mounted();
    // An indirect-mapped inode: direct slots come from the inode itself.
    let mut plain = fs.read_inode(12).unwrap();
    plain.i_flags = 0;
    plain.i_block[3] = 77;
    assert_eq!(fs.get_block(&plain, 3), Ok(77));
    // An extent root with a bad magic number.
    let mut bad = fs.read_inode(12).unwrap();
    bad.i_block[0] = 0;
    assert_eq!(fs.get_block(&bad, 0), Err(Ext4Error::Invalid));
    // An empty directory holds no entry.
    let mut empty = fs.read_inode(13).unwrap();
    empty.i_size_lo = 0;
    assert_eq!(fs.dir_find_entry(&empty, &b"readme".to_vec()), Err(Ext4Error::NotFound));
    let docs = fs.read_inode(13).unwrap();
    assert_eq!(fs.dir_find_entry(&docs, &b"readme".to_vec()), Ok(14));
}

#[test]
fn ext4_superblock_from_first_blocks() {
    let img = image();
    let (sb, geo) = superblock_from_start(&img[..2048].to_vec()).unwrap();
    assert_eq!(sb.s_magic, 0xEF53);
    assert_eq!(geo.block_size, 1024);
    let mut bad = img[..2048].to_vec();
    bad[1024 + 56] = 0;
    assert_eq!(superblock_from_start(&bad).err(), Some(Ext4Error::InvalidMagic));
}
