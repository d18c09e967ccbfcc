//! ext4 on-disk structures and the computations of the ext4 driver that
//! need no disk access: decoding superblock, group descriptor, inode and
//! extent-tree bytes; filesystem geometry; where an inode lives; which
//! pointer blocks an indirect mapping goes through; searching extent nodes
//! and directory blocks; splitting paths; seeking.
//!
//! Values read from disk are used with wrapping arithmetic, as the kernel
//! is built (without overflow checks).
use vstd::prelude::*;

verus! {

pub const EXT4_SUPER_MAGIC: u16 = 0xEF53;
pub const EXT4_SUPERBLOCK_OFFSET: usize = 1024;
pub const EXT4_SUPERBLOCK_SIZE: usize = 1024;
pub const EXT4_ROOT_INODE: u32 = 2;
pub const EXT4_GOOD_OLD_INODE_SIZE: u16 = 128;

pub const EXT4_FT_UNKNOWN: u8 = 0;
pub const EXT4_FT_REG_FILE: u8 = 1;
pub const EXT4_FT_DIR: u8 = 2;
pub const EXT4_FT_CHRDEV: u8 = 3;
pub const EXT4_FT_BLKDEV: u8 = 4;
pub const EXT4_FT_FIFO: u8 = 5;
pub const EXT4_FT_SOCK: u8 = 6;
pub const EXT4_FT_SYMLINK: u8 = 7;

pub const EXT4_INDEX_FL: u32 = 0x0000_1000;
pub const EXT4_JOURNAL_DATA_FL: u32 = 0x0000_4000;
pub const EXT4_EXTENTS_FL: u32 = 0x0008_0000;
pub const EXT4_INLINE_DATA_FL: u32 = 0x1000_0000;

pub const EXT4_FEATURE_COMPAT_HAS_JOURNAL: u32 = 0x0004;
pub const EXT4_FEATURE_INCOMPAT_FILETYPE: u32 = 0x0002;
pub const EXT4_FEATURE_INCOMPAT_RECOVER: u32 = 0x0004;
pub const EXT4_FEATURE_INCOMPAT_EXTENTS: u32 = 0x0040;
pub const EXT4_FEATURE_INCOMPAT_64BIT: u32 = 0x0080;

pub const JBD2_MAGIC_NUMBER: u32 = 0xC03B_3998;
pub const JBD2_DESCRIPTOR_BLOCK: u32 = 1;
pub const JBD2_COMMIT_BLOCK: u32 = 2;
pub const JBD2_SUPERBLOCK_V1: u32 = 3;
pub const JBD2_SUPERBLOCK_V2: u32 = 4;
pub const JBD2_REVOKE_BLOCK: u32 = 5;

pub const JBD2_FLAG_ESCAPE: u16 = 0x01;
pub const JBD2_FLAG_SAME_UUID: u16 = 0x02;
pub const JBD2_FLAG_DELETED: u16 = 0x04;
pub const JBD2_FLAG_LAST_TAG: u16 = 0x08;

pub const EXT4_MAX_BLOCK_SIZE: u32 = 65536;
pub const EXT4_MIN_BLOCK_SIZE: u32 = 1024;
pub const EXT4_NAME_LEN: usize = 255;
pub const EXT4_NDIR_BLOCKS: usize = 12;
pub const EXT4_IND_BLOCK: usize = 12;
pub const EXT4_DIND_BLOCK: usize = 13;
pub const EXT4_TIND_BLOCK: usize = 14;
pub const EXT4_N_BLOCKS: usize = 15;

pub const EXT4_EXT_MAGIC: u16 = 0xF30A;
pub const EXT4_EXT_MAX_DEPTH: u16 = 5;

/// Bytes of an inode record the driver decodes.
pub const EXT4_INODE_RECORD_SIZE: usize = 160;

/// Bytes of a group descriptor the driver decodes.
pub const EXT4_GROUP_DESC_RECORD_SIZE: usize = 64;

/// Bytes of an extent header, index or extent.
pub const EXT4_EXTENT_ENTRY_SIZE: usize = 12;

/// Largest block size reads into caller buffers go through.
pub const EXT4_MMAP_SCRATCH_SIZE: usize = 4096;

/// Outcome codes of the driver.
#[derive(Clone, Copy, Debug, PartialEq, Eq, Structural)]
pub enum Ext4Error {
    Success,
    InvalidMagic,
    Io,
    NoMem,
    NotFound,
    Invalid,
    Journal,
    NoSpace,
    Permission,
}

/// The C status code of each outcome.
pub open spec fn error_code(e: Ext4Error) -> i32 {
    match e {
        Ext4Error::Success => 0,
        Ext4Error::InvalidMagic => -1i32,
        Ext4Error::Io => -2i32,
        Ext4Error::NoMem => -3i32,
        Ext4Error::NotFound => -4i32,
        Ext4Error::Invalid => -5i32,
        Ext4Error::Journal => -6i32,
        Ext4Error::NoSpace => -7i32,
        Ext4Error::Permission => -8i32,
    }
}

/// The outcome a C status code stands for; unknown codes are `Invalid`.
pub open spec fn error_of_code(code: i32) -> Ext4Error {
    if code == 0 {
        Ext4Error::Success
    } else if code == -1 {
        Ext4Error::InvalidMagic
    } else if code == -2 {
        Ext4Error::Io
    } else if code == -3 {
        Ext4Error::NoMem
    } else if code == -4 {
        Ext4Error::NotFound
    } else if code == -5 {
        Ext4Error::Invalid
    } else if code == -6 {
        Ext4Error::Journal
    } else if code == -7 {
        Ext4Error::NoSpace
    } else if code == -8 {
        Ext4Error::Permission
    } else {
        Ext4Error::Invalid
    }
}

impl Ext4Error {
    /// Whether this is the success outcome.
    pub fn is_success(&self) -> (r: bool)
        ensures
            r == (*self == Ext4Error::Success),
    {
        match self {
            Ext4Error::Success => true,
            _ => false,
        }
    }

    /// The C status code.
    pub fn code(&self) -> (r: i32)
        ensures
            r == error_code(*self),
    {
        match self {
            Ext4Error::Success => 0,
            Ext4Error::InvalidMagic => -1,
            Ext4Error::Io => -2,
            Ext4Error::NoMem => -3,
            Ext4Error::NotFound => -4,
            Ext4Error::Invalid => -5,
            Ext4Error::Journal => -6,
            Ext4Error::NoSpace => -7,
            Ext4Error::Permission => -8,
        }
    }

    /// The outcome of C status `code`.
    pub fn from_code(code: i32) -> (r: Ext4Error)
        ensures
            r == error_of_code(code),
    {
        match code {
            0 => Ext4Error::Success,
            -1 => Ext4Error::InvalidMagic,
            -2 => Ext4Error::Io,
            -3 => Ext4Error::NoMem,
            -4 => Ext4Error::NotFound,
            -5 => Ext4Error::Invalid,
            -6 => Ext4Error::Journal,
            -7 => Ext4Error::NoSpace,
            -8 => Ext4Error::Permission,
            _ => Ext4Error::Invalid,
        }
    }
}

/// Decoding a status code gives back the outcome that produced it.
pub proof fn lemma_code_roundtrip(e: Ext4Error)
    ensures
        error_of_code(error_code(e)) == e,
{
}

/// The result a C call with status `code` stands for.
pub fn status_result(code: i32) -> (r: Result<(), Ext4Error>)
    ensures
        code == 0 ==> r is Ok,
        code != 0 ==> r == Err::<(), Ext4Error>(error_of_code(code)),
{
    let e = Ext4Error::from_code(code);
    if e.is_success() {
        Ok(())
    } else {
        Err(e)
    }
}

/// The little-endian 16-bit value at `off` of `b`.
pub open spec fn le16(b: Seq<u8>, off: int) -> u16 {
    ((b[off] as u16) | ((b[off + 1] as u16) << 8u16)) as u16
}

/// The little-endian 32-bit value at `off` of `b`.
pub open spec fn le32(b: Seq<u8>, off: int) -> u32 {
    ((le16(b, off) as u32) | ((le16(b, off + 2) as u32) << 16u32)) as u32
}

/// Read the little-endian 16-bit value at `off`.
pub fn read_le16(b: &Vec<u8>, off: usize) -> (r: u16)
    requires
        off + 2 <= b.len(),
    ensures
        r == le16(b@, off as int),
{
    (b[off] as u16) | ((b[off + 1] as u16) << 8u16)
}

/// Read the little-endian 32-bit value at `off`.
pub fn read_le32(b: &Vec<u8>, off: usize) -> (r: u32)
    requires
        off + 4 <= b.len(),
    ensures
        r == le32(b@, off as int),
{
    (read_le16(b, off) as u32) | ((read_le16(b, off + 2) as u32) << 16u32)
}

/// The superblock fields the driver reads.
#[derive(Clone, Copy, Debug)]
pub struct Ext4Superblock {
    pub s_inodes_count: u32,
    pub s_blocks_count_lo: u32,
    pub s_free_blocks_count_lo: u32,
    pub s_free_inodes_count: u32,
    pub s_log_block_size: u32,
    pub s_blocks_per_group: u32,
    pub s_inodes_per_group: u32,
    pub s_magic: u16,
    pub s_inode_size: u16,
    pub s_feature_compat: u32,
    pub s_feature_incompat: u32,
    pub s_journal_inum: u32,
    pub s_desc_size: u16,
    pub s_blocks_count_hi: u32,
    pub s_free_blocks_count_hi: u32,
}

/// The superblock fields at their on-disk offsets in the 1024-byte `b`.
pub open spec fn superblock_of(b: Seq<u8>) -> Ext4Superblock {
    Ext4Superblock {
        s_inodes_count: le32(b, 0),
        s_blocks_count_lo: le32(b, 4),
        s_free_blocks_count_lo: le32(b, 12),
        s_free_inodes_count: le32(b, 16),
        s_log_block_size: le32(b, 24),
        s_blocks_per_group: le32(b, 32),
        s_inodes_per_group: le32(b, 40),
        s_magic: le16(b, 56),
        s_inode_size: le16(b, 88),
        s_feature_compat: le32(b, 92),
        s_feature_incompat: le32(b, 96),
        s_journal_inum: le32(b, 224),
        s_desc_size: le16(b, 254),
        s_blocks_count_hi: le32(b, 336),
        s_free_blocks_count_hi: le32(b, 344),
    }
}

impl Ext4Superblock {
    /// Decode the superblock that starts at `off` of `b`.
    pub fn parse(b: &Vec<u8>, off: usize) -> (r: Ext4Superblock)
        requires
            off + EXT4_SUPERBLOCK_SIZE <= b.len(),
        ensures
            r == superblock_of(b@.subrange(off as int, off + EXT4_SUPERBLOCK_SIZE)),
    {
        let ghost s = b@.subrange(off as int, off + EXT4_SUPERBLOCK_SIZE);
        let r = Ext4Superblock {
            s_inodes_count: read_le32(b, off),
            s_blocks_count_lo: read_le32(b, off + 4),
            s_free_blocks_count_lo: read_le32(b, off + 12),
            s_free_inodes_count: read_le32(b, off + 16),
            s_log_block_size: read_le32(b, off + 24),
            s_blocks_per_group: read_le32(b, off + 32),
            s_inodes_per_group: read_le32(b, off + 40),
            s_magic: read_le16(b, off + 56),
            s_inode_size: read_le16(b, off + 88),
            s_feature_compat: read_le32(b, off + 92),
            s_feature_incompat: read_le32(b, off + 96),
            s_journal_inum: read_le32(b, off + 224),
            s_desc_size: read_le16(b, off + 254),
            s_blocks_count_hi: read_le32(b, off + 336),
            s_free_blocks_count_hi: read_le32(b, off + 344),
        };
        assert(r == superblock_of(s));
        r
    }
}

/// The sizes and layout the driver derives from the superblock.
#[derive(Clone, Copy, Debug)]
pub struct Ext4Geometry {
    pub block_size: u32,
    pub blocks_per_group: u32,
    pub inodes_per_group: u32,
    pub inode_size: u32,
    pub group_count: u32,
    pub desc_size: u32,
    pub total_blocks: u64,
    pub use_extents: bool,
    pub use_64bit: bool,
}

/// The geometry of a filesystem with superblock `sb`: block size 1024 <<
/// log (the shift taken modulo 32), 64-bit block counts and descriptor
/// sizes (at least 32) with the 64-bit feature, else 32-bit counts and
/// 32-byte descriptors; as many groups as it takes to cover the blocks
/// (the rounding sum wrapping in 64 bits, the count cut to 32).
pub open spec fn geometry_of(sb: Ext4Superblock) -> Ext4Geometry {
    let is64 = sb.s_feature_incompat & EXT4_FEATURE_INCOMPAT_64BIT != 0;
    let total: int = if is64 {
        sb.s_blocks_count_hi * 0x1_0000_0000 + sb.s_blocks_count_lo
    } else {
        sb.s_blocks_count_lo as int
    };
    let bpg = sb.s_blocks_per_group as u64;
    let rounded = vstd::wrapping::u64_specs::wrapping_sub(
        vstd::wrapping::u64_specs::wrapping_add(total as u64, bpg),
        1,
    );
    Ext4Geometry {
        block_size: vstd::wrapping::u32_specs::wrapping_shl(1024, sb.s_log_block_size),
        blocks_per_group: sb.s_blocks_per_group,
        inodes_per_group: sb.s_inodes_per_group,
        inode_size: sb.s_inode_size as u32,
        group_count: (rounded / bpg) as u32,
        desc_size: if is64 {
            if sb.s_desc_size < 32 { 32 } else { sb.s_desc_size as u32 }
        } else {
            32
        },
        total_blocks: total as u64,
        use_extents: sb.s_feature_incompat & EXT4_FEATURE_INCOMPAT_EXTENTS != 0,
        use_64bit: is64,
    }
}

/// The geometry of the filesystem with superblock `sb`; `InvalidMagic` when
/// the magic number is wrong.
pub fn read_geometry(sb: &Ext4Superblock) -> (r: Result<Ext4Geometry, Ext4Error>)
    requires
        sb.s_blocks_per_group > 0,
    ensures
        sb.s_magic != EXT4_SUPER_MAGIC ==> r == Err::<Ext4Geometry, Ext4Error>(Ext4Error::InvalidMagic),
        sb.s_magic == EXT4_SUPER_MAGIC ==> r == Ok::<Ext4Geometry, Ext4Error>(geometry_of(*sb)),
{
    if sb.s_magic != EXT4_SUPER_MAGIC {
        return Err(Ext4Error::InvalidMagic);
    }
    let block_size = 1024u32.wrapping_shl(sb.s_log_block_size);
    let is64 = (sb.s_feature_incompat & EXT4_FEATURE_INCOMPAT_64BIT) != 0;
    let total: u64;
    let desc: u32;
    if is64 {
        let hi = sb.s_blocks_count_hi as u64;
        let lo = sb.s_blocks_count_lo as u64;
        assert((hi << 32u64) | lo == hi * 0x1_0000_0000 + lo) by (bit_vector)
            requires
                hi < 0x1_0000_0000,
                lo < 0x1_0000_0000,
        ;
        total = (hi << 32u64) | lo;
        desc = if sb.s_desc_size < 32 {
            32
        } else {
            sb.s_desc_size as u32
        };
    } else {
        total = sb.s_blocks_count_lo as u64;
        desc = 32;
    }
    let bpg = sb.s_blocks_per_group as u64;
    assert(total as int == (if is64 {
        sb.s_blocks_count_hi * 0x1_0000_0000 + sb.s_blocks_count_lo
    } else {
        sb.s_blocks_count_lo as int
    }));
    let rounded = total.wrapping_add(bpg).wrapping_sub(1);
    let groups = (#[verifier::truncate] ((rounded / bpg) as u32));
    Ok(
        Ext4Geometry {
            block_size,
            blocks_per_group: sb.s_blocks_per_group,
            inodes_per_group: sb.s_inodes_per_group,
            inode_size: sb.s_inode_size as u32,
            group_count: groups,
            desc_size: desc,
            total_blocks: total,
            use_extents: (sb.s_feature_incompat & EXT4_FEATURE_INCOMPAT_EXTENTS) != 0,
            use_64bit: is64,
        },
    )
}

/// Filesystem usage figures.
#[derive(Clone, Copy, Debug)]
pub struct Ext4FsStats {
    pub total_blocks: u64,
    pub free_blocks: u64,
    pub total_inodes: u64,
    pub free_inodes: u64,
}

/// The usage figures of a filesystem with superblock `sb` and geometry
/// `geo`: free blocks with their high half on 64-bit filesystems.
pub open spec fn stats_of_spec(sb: Ext4Superblock, geo: Ext4Geometry) -> Ext4FsStats {
    Ext4FsStats {
        total_blocks: geo.total_blocks,
        free_blocks: (if geo.use_64bit {
            sb.s_free_blocks_count_hi * 0x1_0000_0000 + sb.s_free_blocks_count_lo
        } else {
            sb.s_free_blocks_count_lo as int
        }) as u64,
        total_inodes: sb.s_inodes_count as u64,
        free_inodes: sb.s_free_inodes_count as u64,
    }
}

/// The usage figures of a filesystem with superblock `sb` and geometry
/// `geo`.
pub fn stats_of(sb: &Ext4Superblock, geo: &Ext4Geometry) -> (r: Ext4FsStats)
    ensures
        r == stats_of_spec(*sb, *geo),
{
    let free_blocks = if geo.use_64bit {
        let hi = sb.s_free_blocks_count_hi as u64;
        let lo = sb.s_free_blocks_count_lo as u64;
        assert((hi << 32u64) | lo == hi * 0x1_0000_0000 + lo) by (bit_vector)
            requires
                hi < 0x1_0000_0000,
                lo < 0x1_0000_0000,
        ;
        (hi << 32u64) | lo
    } else {
        sb.s_free_blocks_count_lo as u64
    };
    Ext4FsStats {
        total_blocks: geo.total_blocks,
        free_blocks,
        total_inodes: sb.s_inodes_count as u64,
        free_inodes: sb.s_free_inodes_count as u64,
    }
}

/// A block group descriptor (64-bit layout).
#[derive(Clone, Copy, Debug)]
pub struct Ext4GroupDesc {
    pub bg_block_bitmap_lo: u32,
    pub bg_inode_bitmap_lo: u32,
    pub bg_inode_table_lo: u32,
    pub bg_free_blocks_count_lo: u16,
    pub bg_free_inodes_count_lo: u16,
    pub bg_used_dirs_count_lo: u16,
    pub bg_flags: u16,
    pub bg_exclude_bitmap_lo: u32,
    pub bg_block_bitmap_csum_lo: u16,
    pub bg_inode_bitmap_csum_lo: u16,
    pub bg_itable_unused_lo: u16,
    pub bg_checksum: u16,
    pub bg_block_bitmap_hi: u32,
    pub bg_inode_bitmap_hi: u32,
    pub bg_inode_table_hi: u32,
    pub bg_free_blocks_count_hi: u16,
    pub bg_free_inodes_count_hi: u16,
    pub bg_used_dirs_count_hi: u16,
    pub bg_itable_unused_hi: u16,
    pub bg_exclude_bitmap_hi: u32,
    pub bg_block_bitmap_csum_hi: u16,
    pub bg_inode_bitmap_csum_hi: u16,
    pub bg_reserved: u32,
}

/// The descriptor whose bytes are `b` (64 bytes; on filesystems with
/// 32-byte descriptors the caller zeroes the upper half).
pub open spec fn group_desc_of(b: Seq<u8>) -> Ext4GroupDesc {
    Ext4GroupDesc {
        bg_block_bitmap_lo: le32(b, 0),
        bg_inode_bitmap_lo: le32(b, 4),
        bg_inode_table_lo: le32(b, 8),
        bg_free_blocks_count_lo: le16(b, 12),
        bg_free_inodes_count_lo: le16(b, 14),
        bg_used_dirs_count_lo: le16(b, 16),
        bg_flags: le16(b, 18),
        bg_exclude_bitmap_lo: le32(b, 20),
        bg_block_bitmap_csum_lo: le16(b, 24),
        bg_inode_bitmap_csum_lo: le16(b, 26),
        bg_itable_unused_lo: le16(b, 28),
        bg_checksum: le16(b, 30),
        bg_block_bitmap_hi: le32(b, 32),
        bg_inode_bitmap_hi: le32(b, 36),
        bg_inode_table_hi: le32(b, 40),
        bg_free_blocks_count_hi: le16(b, 44),
        bg_free_inodes_count_hi: le16(b, 46),
        bg_used_dirs_count_hi: le16(b, 48),
        bg_itable_unused_hi: le16(b, 50),
        bg_exclude_bitmap_hi: le32(b, 52),
        bg_block_bitmap_csum_hi: le16(b, 56),
        bg_inode_bitmap_csum_hi: le16(b, 58),
        bg_reserved: le32(b, 60),
    }
}

/// The first `n` bytes of `b` from `off`, zero-filled to 64.
pub open spec fn desc_bytes(b: Seq<u8>, off: int, n: int) -> Seq<u8> {
    Seq::new(EXT4_GROUP_DESC_RECORD_SIZE as nat, |i: int| if i < n { b[off + i] } else { 0u8 })
}

impl Ext4GroupDesc {
    /// The descriptor stored at `off` of block `b` with on-disk size
    /// `desc_size`: its first `min(desc_size, 64)` bytes, the rest zero.
    pub fn parse(b: &Vec<u8>, off: usize, desc_size: usize) -> (r: Ext4GroupDesc)
        requires
            off + (if desc_size < EXT4_GROUP_DESC_RECORD_SIZE {
                desc_size
            } else {
                EXT4_GROUP_DESC_RECORD_SIZE
            }) <= b.len(),
        ensures
            r == group_desc_of(
                desc_bytes(
                    b@,
                    off as int,
                    if desc_size < EXT4_GROUP_DESC_RECORD_SIZE {
                        desc_size as int
                    } else {
                        EXT4_GROUP_DESC_RECORD_SIZE as int
                    },
                ),
            ),
    {
        let n = if desc_size < EXT4_GROUP_DESC_RECORD_SIZE {
            desc_size
        } else {
            EXT4_GROUP_DESC_RECORD_SIZE
        };
        let mut d: Vec<u8> = Vec::new();
        let mut i: usize = 0;
        while i < EXT4_GROUP_DESC_RECORD_SIZE
            invariant
                i <= EXT4_GROUP_DESC_RECORD_SIZE,
                d.len() == i,
                off + n <= b.len(),
                n <= EXT4_GROUP_DESC_RECORD_SIZE,
                forall|k: int| 0 <= k < i ==> d@[k] == (if k < n { b@[off + k] } else { 0u8 }),
            decreases EXT4_GROUP_DESC_RECORD_SIZE - i,
        {
            if i < n {
                d.push(b[off + i]);
            } else {
                d.push(0u8);
            }
            i = i + 1;
        }
        assert(d@ == desc_bytes(b@, off as int, n as int));
        Ext4GroupDesc {
            bg_block_bitmap_lo: read_le32(&d, 0),
            bg_inode_bitmap_lo: read_le32(&d, 4),
            bg_inode_table_lo: read_le32(&d, 8),
            bg_free_blocks_count_lo: read_le16(&d, 12),
            bg_free_inodes_count_lo: read_le16(&d, 14),
            bg_used_dirs_count_lo: read_le16(&d, 16),
            bg_flags: read_le16(&d, 18),
            bg_exclude_bitmap_lo: read_le32(&d, 20),
            bg_block_bitmap_csum_lo: read_le16(&d, 24),
            bg_inode_bitmap_csum_lo: read_le16(&d, 26),
            bg_itable_unused_lo: read_le16(&d, 28),
            bg_checksum: read_le16(&d, 30),
            bg_block_bitmap_hi: read_le32(&d, 32),
            bg_inode_bitmap_hi: read_le32(&d, 36),
            bg_inode_table_hi: read_le32(&d, 40),
            bg_free_blocks_count_hi: read_le16(&d, 44),
            bg_free_inodes_count_hi: read_le16(&d, 46),
            bg_used_dirs_count_hi: read_le16(&d, 48),
            bg_itable_unused_hi: read_le16(&d, 50),
            bg_exclude_bitmap_hi: read_le32(&d, 52),
            bg_block_bitmap_csum_hi: read_le16(&d, 56),
            bg_inode_bitmap_csum_hi: read_le16(&d, 58),
            bg_reserved: read_le32(&d, 60),
        }
    }
}

/// Store `v` little-endian in the two bytes of `b` at `off`.
pub fn put_le16(b: &mut Vec<u8>, off: usize, v: u16)
    requires
        off + 2 <= old(b).len(),
    ensures
        final(b).len() == old(b).len(),
        le16(final(b)@, off as int) == v,
        forall|j: int| 0 <= j < old(b).len() && (j < off || j >= off + 2) ==> #[trigger] final(b)@[j] == old(b)@[j],
{
    let lo = (v & 0xFF) as u8;
    let hi = (v >> 8u16) as u8;
    b.set(off, lo);
    b.set(off + 1, hi);
    proof {
        assert(((lo as u16) | ((hi as u16) << 8u16)) as u16 == v) by (bit_vector)
            requires
                lo == (v & 0xFF) as u8,
                hi == (v >> 8u16) as u8,
        ;
    }
}

/// Store `v` little-endian in the four bytes of `b` at `off`.
pub fn put_le32(b: &mut Vec<u8>, off: usize, v: u32)
    requires
        off + 4 <= old(b).len(),
    ensures
        final(b).len() == old(b).len(),
        le32(final(b)@, off as int) == v,
        forall|j: int| 0 <= j < old(b).len() && (j < off || j >= off + 4) ==> #[trigger] final(b)@[j] == old(b)@[j],
{
    let lo = (v & 0xFFFF) as u16;
    let hi = (v >> 16u32) as u16;
    put_le16(b, off, lo);
    let ghost mid = b@;
    put_le16(b, off + 2, hi);
    proof {
        assert(le16(b@, off as int) == le16(mid, off as int));
        assert(((lo as u32) | ((hi as u32) << 16u32)) as u32 == v) by (bit_vector)
            requires
                lo == (v & 0xFFFF) as u16,
                hi == (v >> 16u32) as u16,
        ;
    }
}

/// An inode record.
#[derive(Clone, Copy, Debug)]
pub struct Ext4Inode {
    pub i_mode: u16,
    pub i_uid: u16,
    pub i_size_lo: u32,
    pub i_atime: u32,
    pub i_ctime: u32,
    pub i_mtime: u32,
    pub i_dtime: u32,
    pub i_gid: u16,
    pub i_links_count: u16,
    pub i_blocks_lo: u32,
    pub i_flags: u32,
    pub i_osd1: u32,
    pub i_block: [u32; 15],
    pub i_generation: u32,
    pub i_file_acl_lo: u32,
    pub i_size_hi: u32,
    pub i_obso_faddr: u32,
    pub i_blocks_hi: u16,
    pub i_file_acl_hi: u16,
    pub i_uid_hi: u16,
    pub i_gid_hi: u16,
    pub i_checksum_lo: u16,
    pub i_reserved: u16,
    pub i_extra_isize: u16,
    pub i_checksum_hi: u16,
    pub i_ctime_extra: u32,
    pub i_mtime_extra: u32,
    pub i_atime_extra: u32,
    pub i_crtime: u32,
    pub i_crtime_extra: u32,
    pub i_version_hi: u32,
    pub i_projid: u32,
}

/// The 64-bit size of inode `i`.
pub open spec fn inode_size(i: Ext4Inode) -> u64 {
    (i.i_size_hi as u64 * 0x1_0000_0000 + i.i_size_lo) as u64
}

impl Ext4Inode {
    /// The 64-bit file size.
    pub fn size(&self) -> (r: u64)
        ensures
            r == inode_size(*self),
    {
        let lo = self.i_size_lo as u64;
        let hi = self.i_size_hi as u64;
        proof {
            lemma_join32(hi, lo);
        }
        lo | (hi << 32u64)
    }

    /// The 32-bit owner ID.
    pub fn uid(&self) -> (r: u32)
        ensures
            r == self.i_uid_hi * 0x1_0000 + self.i_uid,
    {
        let lo = self.i_uid as u32;
        let hi = self.i_uid_hi as u32;
        proof {
            lemma_join16(hi, lo);
        }
        lo | (hi << 16u32)
    }

    /// The 32-bit group ID.
    pub fn gid(&self) -> (r: u32)
        ensures
            r == self.i_gid_hi * 0x1_0000 + self.i_gid,
    {
        let lo = self.i_gid as u32;
        let hi = self.i_gid_hi as u32;
        proof {
            lemma_join16(hi, lo);
        }
        lo | (hi << 16u32)
    }

    /// Whether the inode maps its blocks through an extent tree.
    pub fn uses_extents(&self) -> (r: bool)
        ensures
            r == (self.i_flags & EXT4_EXTENTS_FL != 0),
    {
        (self.i_flags & EXT4_EXTENTS_FL) != 0
    }

    /// Whether the inode is a directory.
    pub fn is_dir(&self) -> (r: bool)
        ensures
            r == (self.i_mode & 0xF000 == 0x4000),
    {
        (self.i_mode & 0xF000) == 0x4000
    }

    /// Whether the inode is a regular file.
    pub fn is_file(&self) -> (r: bool)
        ensures
            r == (self.i_mode & 0xF000 == 0x8000),
    {
        (self.i_mode & 0xF000) == 0x8000
    }

    /// Whether the inode is a symbolic link.
    pub fn is_symlink(&self) -> (r: bool)
        ensures
            r == (self.i_mode & 0xF000 == 0xA000),
    {
        (self.i_mode & 0xF000) == 0xA000
    }
}

/// Joining two 32-bit halves.
pub proof fn lemma_join32(hi: u64, lo: u64)
    by (bit_vector)
    requires
        hi < 0x1_0000_0000,
        lo < 0x1_0000_0000,
    ensures
        lo | (hi << 32u64) == hi * 0x1_0000_0000 + lo,
        (hi << 32u64) | lo == hi * 0x1_0000_0000 + lo,
{
}

/// Joining two 16-bit halves.
pub proof fn lemma_join16(hi: u32, lo: u32)
    by (bit_vector)
    requires
        hi < 0x1_0000,
        lo < 0x1_0000,
    ensures
        lo | (hi << 16u32) == hi * 0x1_0000 + lo,
{
}

/// The inode record whose 160 bytes start at `off` of `b`.
pub open spec fn inode_of(b: Seq<u8>, off: int) -> Ext4Inode {
    Ext4Inode {
        i_mode: le16(b, off),
        i_uid: le16(b, off + 2),
        i_size_lo: le32(b, off + 4),
        i_atime: le32(b, off + 8),
        i_ctime: le32(b, off + 12),
        i_mtime: le32(b, off + 16),
        i_dtime: le32(b, off + 20),
        i_gid: le16(b, off + 24),
        i_links_count: le16(b, off + 26),
        i_blocks_lo: le32(b, off + 28),
        i_flags: le32(b, off + 32),
        i_osd1: le32(b, off + 36),
        i_block: [
            le32(b, off + 40),
            le32(b, off + 44),
            le32(b, off + 48),
            le32(b, off + 52),
            le32(b, off + 56),
            le32(b, off + 60),
            le32(b, off + 64),
            le32(b, off + 68),
            le32(b, off + 72),
            le32(b, off + 76),
            le32(b, off + 80),
            le32(b, off + 84),
            le32(b, off + 88),
            le32(b, off + 92),
            le32(b, off + 96),
        ],
        i_generation: le32(b, off + 100),
        i_file_acl_lo: le32(b, off + 104),
        i_size_hi: le32(b, off + 108),
        i_obso_faddr: le32(b, off + 112),
        i_blocks_hi: le16(b, off + 116),
        i_file_acl_hi: le16(b, off + 118),
        i_uid_hi: le16(b, off + 120),
        i_gid_hi: le16(b, off + 122),
        i_checksum_lo: le16(b, off + 124),
        i_reserved: le16(b, off + 126),
        i_extra_isize: le16(b, off + 128),
        i_checksum_hi: le16(b, off + 130),
        i_ctime_extra: le32(b, off + 132),
        i_mtime_extra: le32(b, off + 136),
        i_atime_extra: le32(b, off + 140),
        i_crtime: le32(b, off + 144),
        i_crtime_extra: le32(b, off + 148),
        i_version_hi: le32(b, off + 152),
        i_projid: le32(b, off + 156),
    }
}

impl Ext4Inode {
    /// Encode the fields up to the block map into the record at `off`.
    fn write_head(&self, b: &mut Vec<u8>, off: usize)
        requires
            off + EXT4_INODE_RECORD_SIZE <= old(b).len(),
        ensures
            final(b).len() == old(b).len(),
            le16(final(b)@, off as int) == self.i_mode,
            le16(final(b)@, off + 2) == self.i_uid,
            le32(final(b)@, off + 4) == self.i_size_lo,
            le32(final(b)@, off + 8) == self.i_atime,
            le32(final(b)@, off + 12) == self.i_ctime,
            le32(final(b)@, off + 16) == self.i_mtime,
            le32(final(b)@, off + 20) == self.i_dtime,
            le16(final(b)@, off + 24) == self.i_gid,
            le16(final(b)@, off + 26) == self.i_links_count,
            le32(final(b)@, off + 28) == self.i_blocks_lo,
            le32(final(b)@, off + 32) == self.i_flags,
            le32(final(b)@, off + 36) == self.i_osd1,
            forall|j: int| 0 <= j < old(b).len() && (j < off || j >= off + 40) ==> #[trigger] final(b)@[j] == old(b)@[j],
    {
        put_le16(b, off, self.i_mode);
        put_le16(b, off + 2, self.i_uid);
        put_le32(b, off + 4, self.i_size_lo);
        put_le32(b, off + 8, self.i_atime);
        put_le32(b, off + 12, self.i_ctime);
        put_le32(b, off + 16, self.i_mtime);
        put_le32(b, off + 20, self.i_dtime);
        put_le16(b, off + 24, self.i_gid);
        put_le16(b, off + 26, self.i_links_count);
        put_le32(b, off + 28, self.i_blocks_lo);
        put_le32(b, off + 32, self.i_flags);
        put_le32(b, off + 36, self.i_osd1);
    }

    /// Encode the block map into the record at `off`.
    fn write_map(&self, b: &mut Vec<u8>, off: usize)
        requires
            off + EXT4_INODE_RECORD_SIZE <= old(b).len(),
        ensures
            final(b).len() == old(b).len(),
            forall|k: int| 0 <= k < 15 ==> #[trigger] le32(final(b)@, off + 40 + 4 * k) == self.i_block[k],
            forall|j: int| 0 <= j < old(b).len() && (j < off + 40 || j >= off + 100) ==> #[trigger] final(b)@[j]
                == old(b)@[j],
    {
        let mut k: usize = 0;
        while k < 15
            invariant
                k <= 15,
                off + EXT4_INODE_RECORD_SIZE <= b.len(),
                b.len() == old(b).len(),
                forall|i: int| 0 <= i < k ==> #[trigger] le32(b@, off + 40 + 4 * i) == self.i_block[i],
                forall|j: int| 0 <= j < old(b).len() && (j < off + 40 || j >= off + 40 + 4 * k) ==> #[trigger] b@[j]
                    == old(b)@[j],
            decreases 15 - k,
        {
            let ghost before = b@;
            put_le32(b, off + 40 + 4 * k, self.i_block[k]);
            proof {
                assert forall|i: int| 0 <= i < k + 1 implies #[trigger] le32(b@, off + 40 + 4 * i) == self.i_block[i] by {
                    if i < k {
                        assert(le32(b@, off + 40 + 4 * i) == le32(before, off + 40 + 4 * i));
                    }
                }
            }
            k = k + 1;
        }
    }

    /// Encode the fields after the block map into the record at `off`.
    fn write_tail(&self, b: &mut Vec<u8>, off: usize)
        requires
            off + EXT4_INODE_RECORD_SIZE <= old(b).len(),
        ensures
            final(b).len() == old(b).len(),
            le32(final(b)@, off + 100) == self.i_generation,
            le32(final(b)@, off + 104) == self.i_file_acl_lo,
            le32(final(b)@, off + 108) == self.i_size_hi,
            le32(final(b)@, off + 112) == self.i_obso_faddr,
            le16(final(b)@, off + 116) == self.i_blocks_hi,
            le16(final(b)@, off + 118) == self.i_file_acl_hi,
            le16(final(b)@, off + 120) == self.i_uid_hi,
            le16(final(b)@, off + 122) == self.i_gid_hi,
            le16(final(b)@, off + 124) == self.i_checksum_lo,
            le16(final(b)@, off + 126) == self.i_reserved,
            le16(final(b)@, off + 128) == self.i_extra_isize,
            le16(final(b)@, off + 130) == self.i_checksum_hi,
            le32(final(b)@, off + 132) == self.i_ctime_extra,
            le32(final(b)@, off + 136) == self.i_mtime_extra,
            le32(final(b)@, off + 140) == self.i_atime_extra,
            le32(final(b)@, off + 144) == self.i_crtime,
            le32(final(b)@, off + 148) == self.i_crtime_extra,
            le32(final(b)@, off + 152) == self.i_version_hi,
            le32(final(b)@, off + 156) == self.i_projid,
            forall|j: int| 0 <= j < old(b).len() && (j < off + 100 || j >= off + 160) ==> #[trigger] final(b)@[j]
                == old(b)@[j],
    {
        put_le32(b, off + 100, self.i_generation);
        put_le32(b, off + 104, self.i_file_acl_lo);
        put_le32(b, off + 108, self.i_size_hi);
        put_le32(b, off + 112, self.i_obso_faddr);
        put_le16(b, off + 116, self.i_blocks_hi);
        put_le16(b, off + 118, self.i_file_acl_hi);
        put_le16(b, off + 120, self.i_uid_hi);
        put_le16(b, off + 122, self.i_gid_hi);
        put_le16(b, off + 124, self.i_checksum_lo);
        put_le16(b, off + 126, self.i_reserved);
        put_le16(b, off + 128, self.i_extra_isize);
        put_le16(b, off + 130, self.i_checksum_hi);
        self.write_extra(b, off);
    }

    /// Encode the extended timestamps, version and project into the record
    /// at `off`.
    fn write_extra(&self, b: &mut Vec<u8>, off: usize)
        requires
            off + EXT4_INODE_RECORD_SIZE <= old(b).len(),
        ensures
            final(b).len() == old(b).len(),
            le32(final(b)@, off + 132) == self.i_ctime_extra,
            le32(final(b)@, off + 136) == self.i_mtime_extra,
            le32(final(b)@, off + 140) == self.i_atime_extra,
            le32(final(b)@, off + 144) == self.i_crtime,
            le32(final(b)@, off + 148) == self.i_crtime_extra,
            le32(final(b)@, off + 152) == self.i_version_hi,
            le32(final(b)@, off + 156) == self.i_projid,
            forall|j: int| 0 <= j < old(b).len() && (j < off + 132 || j >= off + 160) ==> #[trigger] final(b)@[j]
                == old(b)@[j],
    {
        put_le32(b, off + 132, self.i_ctime_extra);
        put_le32(b, off + 136, self.i_mtime_extra);
        put_le32(b, off + 140, self.i_atime_extra);
        put_le32(b, off + 144, self.i_crtime);
        put_le32(b, off + 148, self.i_crtime_extra);
        put_le32(b, off + 152, self.i_version_hi);
        put_le32(b, off + 156, self.i_projid);
    }

    /// Encode this inode as the 160-byte record at `off` of `b`, leaving
    /// every other byte as it was.
    pub fn write_to(&self, b: &mut Vec<u8>, off: usize)
        requires
            off + EXT4_INODE_RECORD_SIZE <= old(b).len(),
        ensures
            final(b).len() == old(b).len(),
            inode_of(final(b)@, off as int) == *self,
            forall|j: int|
                0 <= j < old(b).len() && (j < off || j >= off + EXT4_INODE_RECORD_SIZE) ==> #[trigger] final(b)@[j]
                    == old(b)@[j],
    {
        self.write_head(b, off);
        let ghost h = b@;
        self.write_map(b, off);
        let ghost m = b@;
        self.write_tail(b, off);
        proof {
            let r = inode_of(b@, off as int);
            assert forall|k: int| 0 <= k < 15 implies #[trigger] le32(b@, off + 40 + 4 * k) == self.i_block[k] by {
                assert(le32(b@, off + 40 + 4 * k) == le32(m, off + 40 + 4 * k));
            }
            assert(le16(b@, off as int) == le16(h, off as int));
            assert(le16(b@, off + 2) == le16(h, off + 2));
            assert(le32(b@, off + 4) == le32(h, off + 4));
            assert(le32(b@, off + 8) == le32(h, off + 8));
            assert(le32(b@, off + 12) == le32(h, off + 12));
            assert(le32(b@, off + 16) == le32(h, off + 16));
            assert(le32(b@, off + 20) == le32(h, off + 20));
            assert(le16(b@, off + 24) == le16(h, off + 24));
            assert(le16(b@, off + 26) == le16(h, off + 26));
            assert(le32(b@, off + 28) == le32(h, off + 28));
            assert(le32(b@, off + 32) == le32(h, off + 32));
            assert(le32(b@, off + 36) == le32(h, off + 36));
            assert forall|i: int| 0 <= i < 15 implies r.i_block[i] == self.i_block[i] by {
                assert(le32(b@, off + 40 + 4 * i) == self.i_block[i]);
                if i == 0 {
                    assert(r.i_block[0] == le32(b@, off + 40));
                } else if i == 1 {
                    assert(r.i_block[1] == le32(b@, off + 44));
                } else if i == 2 {
                    assert(r.i_block[2] == le32(b@, off + 48));
                } else if i == 3 {
                    assert(r.i_block[3] == le32(b@, off + 52));
                } else if i == 4 {
                    assert(r.i_block[4] == le32(b@, off + 56));
                } else if i == 5 {
                    assert(r.i_block[5] == le32(b@, off + 60));
                } else if i == 6 {
                    assert(r.i_block[6] == le32(b@, off + 64));
                } else if i == 7 {
                    assert(r.i_block[7] == le32(b@, off + 68));
                } else if i == 8 {
                    assert(r.i_block[8] == le32(b@, off + 72));
                } else if i == 9 {
                    assert(r.i_block[9] == le32(b@, off + 76));
                } else if i == 10 {
                    assert(r.i_block[10] == le32(b@, off + 80));
                } else if i == 11 {
                    assert(r.i_block[11] == le32(b@, off + 84));
                } else if i == 12 {
                    assert(r.i_block[12] == le32(b@, off + 88));
                } else if i == 13 {
                    assert(r.i_block[13] == le32(b@, off + 92));
                } else if i == 14 {
                    assert(r.i_block[14] == le32(b@, off + 96));
                }
            }
            assert(r.i_block =~= self.i_block);
        }
    }
}

impl Ext4Inode {
    /// Decode the inode record at `off` of `b`.
    pub fn parse(b: &Vec<u8>, off: usize) -> (r: Ext4Inode)
        requires
            off + EXT4_INODE_RECORD_SIZE <= b.len(),
        ensures
            r == inode_of(b@, off as int),
    {
        Ext4Inode {
            i_mode: read_le16(b, off),
            i_uid: read_le16(b, off + 2),
            i_size_lo: read_le32(b, off + 4),
            i_atime: read_le32(b, off + 8),
            i_ctime: read_le32(b, off + 12),
            i_mtime: read_le32(b, off + 16),
            i_dtime: read_le32(b, off + 20),
            i_gid: read_le16(b, off + 24),
            i_links_count: read_le16(b, off + 26),
            i_blocks_lo: read_le32(b, off + 28),
            i_flags: read_le32(b, off + 32),
            i_osd1: read_le32(b, off + 36),
            i_block: [
                read_le32(b, off + 40),
                read_le32(b, off + 44),
                read_le32(b, off + 48),
                read_le32(b, off + 52),
                read_le32(b, off + 56),
                read_le32(b, off + 60),
                read_le32(b, off + 64),
                read_le32(b, off + 68),
                read_le32(b, off + 72),
                read_le32(b, off + 76),
                read_le32(b, off + 80),
                read_le32(b, off + 84),
                read_le32(b, off + 88),
                read_le32(b, off + 92),
                read_le32(b, off + 96),
            ],
            i_generation: read_le32(b, off + 100),
            i_file_acl_lo: read_le32(b, off + 104),
            i_size_hi: read_le32(b, off + 108),
            i_obso_faddr: read_le32(b, off + 112),
            i_blocks_hi: read_le16(b, off + 116),
            i_file_acl_hi: read_le16(b, off + 118),
            i_uid_hi: read_le16(b, off + 120),
            i_gid_hi: read_le16(b, off + 122),
            i_checksum_lo: read_le16(b, off + 124),
            i_reserved: read_le16(b, off + 126),
            i_extra_isize: read_le16(b, off + 128),
            i_checksum_hi: read_le16(b, off + 130),
            i_ctime_extra: read_le32(b, off + 132),
            i_mtime_extra: read_le32(b, off + 136),
            i_atime_extra: read_le32(b, off + 140),
            i_crtime: read_le32(b, off + 144),
            i_crtime_extra: read_le32(b, off + 148),
            i_version_hi: read_le32(b, off + 152),
            i_projid: read_le32(b, off + 156),
        }
    }
}

/// An extent-tree node header.
#[derive(Clone, Copy, Debug)]
pub struct Ext4ExtentHeader {
    pub eh_magic: u16,
    pub eh_entries: u16,
    pub eh_max: u16,
    pub eh_depth: u16,
    pub eh_generation: u32,
}

/// An index entry of an inner extent-tree node.
#[derive(Clone, Copy, Debug)]
pub struct Ext4ExtentIdx {
    pub ei_block: u32,
    pub ei_leaf_lo: u32,
    pub ei_leaf_hi: u16,
    pub ei_unused: u16,
}

/// An extent of a leaf node: `len` blocks from logical `ee_block` stored
/// from physical block `start`.
#[derive(Clone, Copy, Debug)]
pub struct Ext4Extent {
    pub ee_block: u32,
    pub ee_len: u16,
    pub ee_start_hi: u16,
    pub ee_start_lo: u32,
}

impl Ext4ExtentIdx {
    /// The 48-bit block of the child node.
    pub fn leaf(&self) -> (r: u64)
        ensures
            r == self.ei_leaf_hi * 0x1_0000_0000 + self.ei_leaf_lo,
    {
        let lo = self.ei_leaf_lo as u64;
        let hi = self.ei_leaf_hi as u64;
        proof {
            lemma_join32(hi, lo);
        }
        lo | (hi << 32u64)
    }
}

impl Ext4Extent {
    /// The 48-bit first physical block.
    pub fn start(&self) -> (r: u64)
        ensures
            r == self.ee_start_hi * 0x1_0000_0000 + self.ee_start_lo,
    {
        let lo = self.ee_start_lo as u64;
        let hi = self.ee_start_hi as u64;
        proof {
            lemma_join32(hi, lo);
        }
        lo | (hi << 32u64)
    }

    /// The number of blocks (the uninitialized flag, bit 15, masked off).
    pub fn len(&self) -> (r: u16)
        ensures
            r == self.ee_len & 0x7FFF,
    {
        self.ee_len & 0x7FFF
    }

    /// Whether the extent is allocated but not yet written (bit 15).
    pub fn is_uninitialized(&self) -> (r: bool)
        ensures
            r == (self.ee_len & 0x8000 != 0),
    {
        (self.ee_len & 0x8000) != 0
    }
}

/// The header of the extent node `node`.
pub open spec fn node_header(node: Seq<u8>) -> Ext4ExtentHeader {
    Ext4ExtentHeader {
        eh_magic: le16(node, 0),
        eh_entries: le16(node, 2),
        eh_max: le16(node, 4),
        eh_depth: le16(node, 6),
        eh_generation: le32(node, 8),
    }
}

/// Entry `k` of extent node `node`, read as an index.
pub open spec fn node_index(node: Seq<u8>, k: int) -> Ext4ExtentIdx {
    Ext4ExtentIdx {
        ei_block: le32(node, 12 + 12 * k),
        ei_leaf_lo: le32(node, 16 + 12 * k),
        ei_leaf_hi: le16(node, 20 + 12 * k),
        ei_unused: le16(node, 22 + 12 * k),
    }
}

/// Entry `k` of extent node `node`, read as an extent.
pub open spec fn node_extent(node: Seq<u8>, k: int) -> Ext4Extent {
    Ext4Extent {
        ee_block: le32(node, 12 + 12 * k),
        ee_len: le16(node, 16 + 12 * k),
        ee_start_hi: le16(node, 18 + 12 * k),
        ee_start_lo: le32(node, 20 + 12 * k),
    }
}

/// Decode the header of extent node `node`.
pub fn parse_node_header(node: &Vec<u8>) -> (r: Ext4ExtentHeader)
    requires
        node.len() >= EXT4_EXTENT_ENTRY_SIZE,
    ensures
        r == node_header(node@),
{
    Ext4ExtentHeader {
        eh_magic: read_le16(node, 0),
        eh_entries: read_le16(node, 2),
        eh_max: read_le16(node, 4),
        eh_depth: read_le16(node, 6),
        eh_generation: read_le32(node, 8),
    }
}

/// The 60 bytes of an inode's block map, little-endian, which hold the
/// root of its extent tree.
pub open spec fn block_map_bytes(i: Ext4Inode) -> Seq<u8> {
    Seq::new(60, |k: int| word_byte(i.i_block@[k / 4], k % 4))
}

/// Byte `j` (0 = least significant) of `v`.
pub open spec fn word_byte(v: u32, j: int) -> u8 {
    if j == 0 {
        (v & 0xFF) as u8
    } else if j == 1 {
        ((v >> 8u32) & 0xFF) as u8
    } else if j == 2 {
        ((v >> 16u32) & 0xFF) as u8
    } else {
        ((v >> 24u32) & 0xFF) as u8
    }
}

/// The bytes of the inode's block map.
pub fn inode_block_map(inode: &Ext4Inode) -> (r: Vec<u8>)
    ensures
        r@ == block_map_bytes(*inode),
{
    let mut out: Vec<u8> = Vec::new();
    let mut w: usize = 0;
    while w < EXT4_N_BLOCKS
        invariant
            w <= EXT4_N_BLOCKS,
            out.len() == 4 * w,
            forall|k: int| 0 <= k < 4 * w ==> out@[k] == block_map_bytes(*inode)[k],
        decreases EXT4_N_BLOCKS - w,
    {
        let v = inode.i_block[w];
        out.push((v & 0xFF) as u8);
        out.push(((v >> 8u32) & 0xFF) as u8);
        out.push(((v >> 16u32) & 0xFF) as u8);
        out.push(((v >> 24u32) & 0xFF) as u8);
        proof {
            let b = 4 * w as int;
            assert(b / 4 == w && b % 4 == 0);
            assert((b + 1) / 4 == w && (b + 1) % 4 == 1);
            assert((b + 2) / 4 == w && (b + 2) % 4 == 2);
            assert((b + 3) / 4 == w && (b + 3) % 4 == 3);
            assert(inode.i_block@[w as int] == v);
        }
        w = w + 1;
    }
    assert(out@ == block_map_bytes(*inode));
    out
}

/// Whether the first `n` entries of node `node` lie within it.
pub open spec fn entries_fit(node: Seq<u8>, n: int) -> bool {
    12 + 12 * n <= node.len()
}

/// How many of the leading index entries, from entry `k` on, start at or
/// before `t`: the lookup passes them and descends into the last.
pub open spec fn index_run_end(node: Seq<u8>, n: int, t: u32, k: int) -> int
    decreases n - k,
{
    if k >= n || k < 0 {
        k
    } else if node_index(node, k).ei_block > t {
        k
    } else {
        index_run_end(node, n, t, k + 1)
    }
}

/// The child block a lookup of logical block `lblock` descends into from an
/// inner node with `n` entries: the last of the leading entries whose first
/// block is at most `lblock` (cut to 32 bits); `None` when the first entry
/// already starts past it.
pub open spec fn index_child(node: Seq<u8>, n: int, lblock: u64) -> Option<u64> {
    let k = index_run_end(node, n, lblock as u32, 0);
    if k <= 0 {
        None
    } else {
        let e = node_index(node, k - 1);
        Some((e.ei_leaf_hi * 0x1_0000_0000 + e.ei_leaf_lo) as u64)
    }
}

/// The child to descend into from an inner node with `n` entries when
/// looking up logical block `lblock`.
pub fn search_index(node: &Vec<u8>, n: u16, lblock: u64) -> (r: Option<u64>)
    requires
        entries_fit(node@, n as int),
    ensures
        r == index_child(node@, n as int, lblock),
{
    let t = #[verifier::truncate] (lblock as u32);
    let mut k: u16 = 0;
    while k < n
        invariant
            k <= n,
            entries_fit(node@, n as int),
            t == lblock as u32,
            index_run_end(node@, n as int, t, 0) == index_run_end(node@, n as int, t, k as int),
        ensures
            k <= n,
            index_run_end(node@, n as int, t, 0) == k,
        decreases n - k,
    {
        let off = 12 + 12 * (k as usize);
        let b = read_le32(node, off);
        if b > t {
            break;
        }
        k = k + 1;
    }
    if k == 0 {
        return None;
    }
    let off = 12 + 12 * ((k - 1) as usize);
    let idx = Ext4ExtentIdx {
        ei_block: read_le32(node, off),
        ei_leaf_lo: read_le32(node, off + 4),
        ei_leaf_hi: read_le16(node, off + 8),
        ei_unused: read_le16(node, off + 10),
    };
    assert(idx == node_index(node@, k - 1));
    Some(idx.leaf())
}

/// Whether extent `e` covers logical block `lblock`, its end computed in
/// 32 bits as the driver does.
pub open spec fn extent_covers(e: Ext4Extent, lblock: u64) -> bool {
    e.ee_block <= lblock && lblock < ((e.ee_block + (e.ee_len & 0x7FFF)) % 0x1_0000_0000)
}

/// The physical block extent `e` maps logical block `lblock` to.
pub open spec fn extent_target(e: Ext4Extent, lblock: u64) -> u64 {
    (e.ee_start_hi * 0x1_0000_0000 + e.ee_start_lo + (lblock - e.ee_block)) as u64
}

/// The first of the extents from `j` on, of a leaf node with `n`, that
/// covers logical block `lblock`.
pub open spec fn first_covering(node: Seq<u8>, n: int, lblock: u64, j: int) -> Option<int>
    decreases n - j,
{
    if j >= n || j < 0 {
        None
    } else if extent_covers(node_extent(node, j), lblock) {
        Some(j)
    } else {
        first_covering(node, n, lblock, j + 1)
    }
}

/// The physical block of logical block `lblock` in a leaf node with `n`
/// extents: from the first extent that covers it; `NotFound` when none
/// does.
pub open spec fn leaf_target(node: Seq<u8>, n: int, lblock: u64) -> Result<u64, Ext4Error> {
    match first_covering(node, n, lblock, 0) {
        Some(j) => Ok(extent_target(node_extent(node, j), lblock)),
        None => Err(Ext4Error::NotFound),
    }
}

/// The physical block of logical block `lblock` in a leaf node with `n`
/// extents.
pub fn search_leaf(node: &Vec<u8>, n: u16, lblock: u64) -> (r: Result<u64, Ext4Error>)
    requires
        entries_fit(node@, n as int),
    ensures
        r == leaf_target(node@, n as int, lblock),
{
    let mut k: u16 = 0;
    while k < n
        invariant
            k <= n,
            entries_fit(node@, n as int),
            first_covering(node@, n as int, lblock, 0) == first_covering(node@, n as int, lblock, k as int),
        decreases n - k,
    {
        let off = 12 + 12 * (k as usize);
        let e = Ext4Extent {
            ee_block: read_le32(node, off),
            ee_len: read_le16(node, off + 4),
            ee_start_hi: read_le16(node, off + 6),
            ee_start_lo: read_le32(node, off + 8),
        };
        assert(e == node_extent(node@, k as int));
        let len = e.len();
        let end = e.ee_block.wrapping_add(len as u32);
        if lblock >= e.ee_block as u64 && lblock < end as u64 {
            let start = e.start();
            return Ok(start + (lblock - e.ee_block as u64));
        }
        k = k + 1;
    }
    Err(Ext4Error::NotFound)
}

/// The pointer blocks an indirect mapping of a logical block goes through.
#[derive(Clone, Copy, Debug, PartialEq, Eq, Structural)]
pub enum IndirectPath {
    /// Slot `index` of the inode's block map.
    Direct { index: u64 },
    /// Entry `index` of the single-indirect block.
    Single { index: u64 },
    /// Entry `second` of entry `first` of the double-indirect block.
    Double { first: u64, second: u64 },
    /// Entries `first`, `second`, `third` down from the triple-indirect
    /// block.
    Triple { first: u64, second: u64, third: u64 },
}

/// The path to logical block `lblock` with `p` pointers per block: 12
/// direct slots, then `p` single, `p * p` double and the rest triple
/// indirect.
pub open spec fn indirect_path_of(p: u64, lblock: u64) -> IndirectPath {
    if lblock < 12 {
        IndirectPath::Direct { index: lblock }
    } else if lblock - 12 < p {
        IndirectPath::Single { index: (lblock - 12) as u64 }
    } else if lblock - 12 - p < p * p {
        let l = lblock - 12 - p;
        IndirectPath::Double { first: (l / (p as int)) as u64, second: (l % (p as int)) as u64 }
    } else {
        let l = lblock - 12 - p - p * p;
        IndirectPath::Triple {
            first: (l / ((p * p) as int)) as u64,
            second: ((l / (p as int)) % (p as int)) as u64,
            third: (l % (p as int)) as u64,
        }
    }
}

/// The path names logical block `lblock` and no other: with `p` pointers
/// per block, the direct slot is the block itself, a single-indirect entry
/// sits `12` blocks in, a double-indirect path `(first, second)` stands for
/// `12 + p + first * p + second` and a triple one `(first, second, third)`
/// for `12 + p + p * p + first * p * p + second * p + third`, every entry
/// below the top level lying within one block (`< p`).
pub proof fn lemma_indirect_path_names_block(p: u64, lblock: u64)
    requires
        0 < p <= 0x4000_0000,
    ensures
        match indirect_path_of(p, lblock) {
            IndirectPath::Direct { index } => lblock < 12 && index == lblock,
            IndirectPath::Single { index } => 12 <= lblock < 12 + p && index < p && lblock == 12 + index,
            IndirectPath::Double { first, second } => {
                &&& 12 + p <= lblock < 12 + p + p * p
                &&& first < p
                &&& second < p
                &&& lblock == 12 + p + first * p + second
            },
            IndirectPath::Triple { first, second, third } => {
                &&& 12 + p + p * p <= lblock
                &&& second < p
                &&& third < p
                &&& lblock == 12 + p + p * p + first * (p * p) + second * p + third
            },
        },
{
    let pi = p as int;
    if lblock >= 12 && lblock - 12 >= p {
        let l: int = lblock - 12 - p;
        vstd::arithmetic::div_mod::lemma_fundamental_div_mod(l, pi);
        vstd::arithmetic::div_mod::lemma_mod_bound(l, pi);
        assert(pi * (l / pi) == (l / pi) * pi) by (nonlinear_arith);
        if l < pi * pi {
            assert(l / pi < pi) by (nonlinear_arith)
                requires
                    0 <= l < pi * pi,
                    0 < pi,
                    l == pi * (l / pi) + l % pi,
                    0 <= l % pi,
            ;
            assert(0 <= l / pi) by (nonlinear_arith)
                requires
                    0 <= l,
                    0 < pi,
            ;
        } else {
            let q: int = l - pi * pi;
            let pp: int = pi * pi;
            assert(pp > 0) by (nonlinear_arith)
                requires
                    0 < pi,
                    pp == pi * pi,
            ;
            assert(pp == (p * p) as int);
            vstd::arithmetic::div_mod::lemma_fundamental_div_mod(q, pi);
            vstd::arithmetic::div_mod::lemma_mod_bound(q, pi);
            assert(0 <= q / pi) by (nonlinear_arith)
                requires
                    0 <= q,
                    0 < pi,
            ;
            vstd::arithmetic::div_mod::lemma_fundamental_div_mod(q / pi, pi);
            vstd::arithmetic::div_mod::lemma_mod_bound(q / pi, pi);
            vstd::arithmetic::div_mod::lemma_div_denominator(q, pi, pi);
            assert(0 <= q / pp) by (nonlinear_arith)
                requires
                    0 <= q,
                    0 < pp,
            ;
            let a: int = q / pp;
            let b: int = (q / pi) % pi;
            let c: int = q % pi;
            assert(q == pp * a + pi * b + c) by (nonlinear_arith)
                requires
                    q == pi * (q / pi) + c,
                    q / pi == pi * ((q / pi) / pi) + b,
                    (q / pi) / pi == a,
                    pp == pi * pi,
            ;
            assert(pp * a == a * (p * p)) by (nonlinear_arith)
                requires
                    pp == (p * p) as int,
            ;
            assert(pi * b == b * p);
        }
    }
}

/// The path to logical block `lblock` for blocks holding `ptrs_per_block`
/// pointers.
pub fn indirect_path(ptrs_per_block: u64, lblock: u64) -> (r: IndirectPath)
    requires
        0 < ptrs_per_block <= 0x4000_0000,
    ensures
        r == indirect_path_of(ptrs_per_block, lblock),
{
    let p = ptrs_per_block;
    if lblock < 12 {
        return IndirectPath::Direct { index: lblock };
    }
    let l = lblock - 12;
    if l < p {
        return IndirectPath::Single { index: l };
    }
    let l = l - p;
    assert(0 < p * p <= 0x1000_0000_0000_0000) by (nonlinear_arith)
        requires
            0 < p <= 0x4000_0000,
    ;
    let pp = p * p;
    if l < pp {
        return IndirectPath::Double { first: l / p, second: l % p };
    }
    let l = l - pp;
    IndirectPath::Triple { first: l / pp, second: (l / p) % p, third: l % p }
}

/// The directory entry named `name` in directory block `block`, scanning
/// entries from `off`: each holds its inode (4 bytes), record length (2),
/// name length (1), file type (1) and name; a zero record length, a header
/// past the block or a record reaching past it ends the scan; entries with
/// inode 0 are unused.
pub open spec fn dir_scan(block: Seq<u8>, off: int, name: Seq<u8>) -> Option<u32>
    decreases block.len() - off,
{
    if off < 0 || off + 8 > block.len() {
        None
    } else {
        let ino = le32(block, off);
        let rec = le16(block, off + 4);
        let nl = block[off + 6] as int;
        if rec == 0 {
            None
        } else if ino != 0 && nl == name.len() && off + 8 + nl <= block.len() && block.subrange(
            off + 8,
            off + 8 + nl,
        ) == name {
            Some(ino)
        } else if off + rec >= block.len() {
            None
        } else {
            dir_scan(block, off + rec, name)
        }
    }
}

/// Find the entry named `name` in directory block `block`.
pub fn dir_block_find(block: &Vec<u8>, name: &Vec<u8>) -> (r: Option<u32>)
    ensures
        r == dir_scan(block@, 0, name@),
{
    let mut off: usize = 0;
    let len = block.len();
    while off < len
        invariant
            len == block.len(),
            dir_scan(block@, 0, name@) == dir_scan(block@, off as int, name@),
        decreases len - off,
    {
        if len - off < 8 {
            return None;
        }
        let ino = read_le32(block, off);
        let rec = read_le16(block, off + 4);
        let nl = block[off + 6] as usize;
        if rec == 0 {
            return None;
        }
        if ino != 0 && nl == name.len() && nl <= len - off - 8 {
            let mut i: usize = 0;
            let mut same = true;
            while i < nl
                invariant
                    i <= nl,
                    nl == name.len(),
                    off + 8 + nl <= block.len(),
                    same == (forall|j: int| 0 <= j < i ==> block@[off + 8 + j] == name@[j]),
                decreases nl - i,
            {
                if block[off + 8 + i] != name[i] {
                    same = false;
                }
                i = i + 1;
            }
            proof {
                if same {
                    assert(block@.subrange(off + 8, off + 8 + nl as int) =~= name@);
                } else {
                    let j = choose|j: int| 0 <= j < nl && block@[off + 8 + j] != name@[j];
                    assert(block@.subrange(off + 8, off + 8 + nl as int)[j] != name@[j]);
                }
            }
            if same {
                return Some(ino);
            }
        }
        if rec as usize >= len - off {
            return None;
        }
        off = off + rec as usize;
    }
    None
}

/// The first position at or after `pos` in `path` that is not a slash.
pub open spec fn skip_slashes(path: Seq<u8>, pos: int) -> int
    decreases path.len() - pos,
{
    if pos >= path.len() || pos < 0 {
        pos
    } else if path[pos] == 0x2F {
        skip_slashes(path, pos + 1)
    } else {
        pos
    }
}

/// Length of the path component at `pos`: up to the next slash or the end,
/// at most 255 bytes.
pub open spec fn component_len(path: Seq<u8>, pos: int, len: int) -> bool {
    &&& 0 <= len <= EXT4_NAME_LEN
    &&& pos + len <= path.len()
    &&& forall|j: int| pos <= j < pos + len ==> path[j] != 0x2F
    &&& (len == EXT4_NAME_LEN || pos + len == path.len() || path[pos + len] == 0x2F)
}

/// The position after the slashes at `pos`, and the length of the
/// component found there (0 at the end of the path).
pub fn next_component(path: &Vec<u8>, pos: usize) -> (r: (usize, usize))
    requires
        pos <= path.len(),
    ensures
        r.0 == skip_slashes(path@, pos as int),
        pos <= r.0 <= path.len(),
        component_len(path@, r.0 as int, r.1 as int),
        r.0 < path.len() ==> r.1 > 0,
{
    let mut p = pos;
    while p < path.len() && path[p] == 0x2F
        invariant
            pos <= p <= path.len(),
            skip_slashes(path@, pos as int) == skip_slashes(path@, p as int),
        decreases path.len() - p,
    {
        p = p + 1;
    }
    let mut len: usize = 0;
    while p + len < path.len() && path[p + len] != 0x2F && len < EXT4_NAME_LEN
        invariant
            p <= path.len(),
            p + len <= path.len(),
            len <= EXT4_NAME_LEN,
            forall|j: int| p <= j < p + len ==> path@[j] != 0x2F,
        decreases path.len() - p - len,
    {
        len = len + 1;
    }
    (p, len)
}

/// Where inode `inode_num` is stored: the block of its group's inode table
/// holding it and its byte offset there; `Invalid` for inode 0 or a group
/// past the last (or past the descriptors read).
pub open spec fn inode_location_of(geo: Ext4Geometry, descs: Seq<Ext4GroupDesc>, inode_num: u32) -> Result<
    (u64, u32),
    Ext4Error,
> {
    if inode_num == 0 {
        Err(Ext4Error::Invalid)
    } else {
        let group = (inode_num - 1) / (geo.inodes_per_group as int);
        let index = (inode_num - 1) % (geo.inodes_per_group as int);
        if group >= geo.group_count || group >= descs.len() {
            Err(Ext4Error::Invalid)
        } else {
            let d = descs[group];
            let table: int = if geo.use_64bit {
                d.bg_inode_table_hi * 0x1_0000_0000 + d.bg_inode_table_lo
            } else {
                d.bg_inode_table_lo as int
            };
            let byte = ((index * geo.inode_size) % 0x1_0000_0000) as u32;
            Ok((vstd::wrapping::u64_specs::wrapping_add(table as u64, (byte / geo.block_size) as u64), byte % geo.block_size))
        }
    }
}

/// Where inode `inode_num` is stored.
pub fn inode_location(geo: &Ext4Geometry, descs: &Vec<Ext4GroupDesc>, inode_num: u32) -> (r: Result<
    (u64, u32),
    Ext4Error,
>)
    requires
        geo.inodes_per_group > 0,
        geo.block_size > 0,
    ensures
        r == inode_location_of(*geo, descs@, inode_num),
{
    if inode_num == 0 {
        return Err(Ext4Error::Invalid);
    }
    let group = (inode_num - 1) / geo.inodes_per_group;
    let index = (inode_num - 1) % geo.inodes_per_group;
    if group >= geo.group_count || group as usize >= descs.len() {
        return Err(Ext4Error::Invalid);
    }
    let d = descs[group as usize];
    let lo = d.bg_inode_table_lo as u64;
    let mut table = lo;
    if geo.use_64bit {
        let hi = d.bg_inode_table_hi as u64;
        proof {
            lemma_join32(hi, lo);
        }
        table = lo | (hi << 32u64);
    }
    let byte = index.wrapping_mul(geo.inode_size);
    assert(byte == (index * geo.inode_size) % 0x1_0000_0000) by (nonlinear_arith)
        requires
            byte == (index * geo.inode_size) % 0x1_0000_0000,
    ;
    Ok((table.wrapping_add((byte / geo.block_size) as u64), byte % geo.block_size))
}

/// Where a seek measures from.
#[derive(Clone, Copy, Debug, PartialEq, Eq, Structural)]
pub enum SeekFrom {
    Start,
    Current,
    End,
}

/// `x` read as a signed 64-bit value.
pub open spec fn as_i64(x: u64) -> int {
    if x <= i64::MAX {
        x as int
    } else {
        x - 0x1_0000_0000_0000_0000
    }
}

/// The position a seek by `offset` from `whence` gives, for a file of
/// `file_size` bytes at `position` (sums wrap in 64 bits); `Invalid` before
/// the start of the file.
pub open spec fn seek_target(position: u64, file_size: u64, offset: i64, whence: SeekFrom) -> Result<u64, Ext4Error> {
    let target: int = match whence {
        SeekFrom::Start => offset as int,
        SeekFrom::Current => vstd::wrapping::i64_specs::wrapping_add(as_i64(position) as i64, offset) as int,
        SeekFrom::End => vstd::wrapping::i64_specs::wrapping_add(as_i64(file_size) as i64, offset) as int,
    };
    if target < 0 {
        Err(Ext4Error::Invalid)
    } else {
        Ok(target as u64)
    }
}

/// `x` read as a signed 64-bit value.
fn signed_of(x: u64) -> (r: i64)
    ensures
        r == as_i64(x),
{
    if x <= 0x7FFF_FFFF_FFFF_FFFF {
        x as i64
    } else {
        ((x - 0x8000_0000_0000_0000) as i64) + i64::MIN
    }
}

/// The position a seek gives.
pub fn seek_position(position: u64, file_size: u64, offset: i64, whence: SeekFrom) -> (r: Result<u64, Ext4Error>)
    ensures
        r == seek_target(position, file_size, offset, whence),
{
    let new_pos: i64 = match whence {
        SeekFrom::Start => offset,
        SeekFrom::Current => signed_of(position).wrapping_add(offset),
        SeekFrom::End => signed_of(file_size).wrapping_add(offset),
    };
    if new_pos < 0 {
        return Err(Ext4Error::Invalid);
    }
    Ok(new_pos as u64)
}

/// How a read of up to `dst_len` bytes at `offset` of a file of
/// `file_size` bytes goes: `Ok(0)` (nothing to read) at or past the end or
/// for an empty buffer; `Invalid` for a zero block size; `NoMem` when a
/// block would not fit the 4 KiB bounce buffer; else the number of bytes
/// to read.
pub open spec fn read_amount(file_size: u64, offset: u64, dst_len: usize, block_size: u32) -> Result<usize, Ext4Error> {
    if offset >= file_size || dst_len == 0 {
        Ok(0)
    } else if block_size == 0 {
        Err(Ext4Error::Invalid)
    } else if block_size > EXT4_MMAP_SCRATCH_SIZE {
        Err(Ext4Error::NoMem)
    } else if dst_len <= file_size - offset {
        Ok(dst_len)
    } else {
        Ok((file_size - offset) as usize)
    }
}

/// How much a read at `offset` of `dst_len` bytes reads.
pub fn read_at_amount(file_size: u64, offset: u64, dst_len: usize, block_size: u32) -> (r: Result<usize, Ext4Error>)
    ensures
        r == read_amount(file_size, offset, dst_len, block_size),
{
    if offset >= file_size || dst_len == 0 {
        return Ok(0);
    }
    if block_size == 0 {
        return Err(Ext4Error::Invalid);
    }
    if block_size as usize > EXT4_MMAP_SCRATCH_SIZE {
        return Err(Ext4Error::NoMem);
    }
    let max_len = file_size - offset;
    if dst_len as u64 <= max_len {
        Ok(dst_len)
    } else {
        Ok(max_len as usize)
    }
}

/// The piece of a read at file byte `pos` with `remaining` bytes still to
/// read: its logical block, its offset in the block, and its length (to
/// the end of the block at most).
pub open spec fn read_piece(pos: u64, remaining: usize, block_size: u32) -> (u64, usize, usize) {
    let lb = (pos as int) / (block_size as int);
    let off = (pos as int) % (block_size as int);
    let room = block_size - off;
    (lb as u64, off as usize, (if room <= remaining { room } else { remaining as int }) as usize)
}

/// The next piece of a read at file byte `pos`.
pub fn read_chunk(pos: u64, remaining: usize, block_size: u32) -> (r: (u64, usize, usize))
    requires
        block_size > 0,
    ensures
        r == read_piece(pos, remaining, block_size),
        0 < r.2 || remaining == 0,
        r.2 <= remaining,
        r.1 + r.2 <= block_size,
{
    let bs = block_size as u64;
    let lb = pos / bs;
    let off = pos % bs;
    let room = (bs - off) as usize;
    let chunk = if room <= remaining {
        room
    } else {
        remaining
    };
    (lb, off as usize, chunk)
}

} // verus!
