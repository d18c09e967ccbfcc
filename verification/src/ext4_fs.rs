//! The ext4 filesystem driver on a block device: mounting, reading inodes,
//! mapping file blocks through extent trees or indirect blocks, looking up
//! paths, reading files and directories, and the JBD2 journal that collects
//! metadata writes until they are committed.
use vstd::prelude::*;
use crate::ext4::{
    dir_block_find, dir_scan, next_component, read_at_amount, read_amount, read_chunk, read_piece, seek_position,
    seek_target, skip_slashes, stats_of, geometry_of, read_geometry, superblock_of, inode_size, Ext4FsStats,
    SeekFrom, EXT4_ROOT_INODE, EXT4_FEATURE_COMPAT_HAS_JOURNAL, EXT4_FEATURE_INCOMPAT_RECOVER,
    EXT4_MIN_BLOCK_SIZE, EXT4_SUPERBLOCK_OFFSET, EXT4_SUPERBLOCK_SIZE, JBD2_COMMIT_BLOCK, JBD2_DESCRIPTOR_BLOCK,
    block_map_bytes, entries_fit, index_child, group_desc_of, desc_bytes, EXT4_GROUP_DESC_RECORD_SIZE, indirect_path, indirect_path_of, lemma_indirect_path_names_block, inode_block_map, inode_location,
    inode_location_of, inode_of, le32, leaf_target, node_header, parse_node_header, read_le32, search_index,
    search_leaf, word_byte, Ext4Error, Ext4Geometry, Ext4GroupDesc, Ext4Inode, Ext4Superblock, IndirectPath,
    EXT4_EXTENTS_FL, EXT4_EXT_MAGIC, EXT4_INODE_RECORD_SIZE, JBD2_MAGIC_NUMBER, EXT4_NAME_LEN, component_len,
};

verus! {

/// Some `len` bytes, one choice for each device state and block.
pub closed spec fn device_bytes<D>(device: &D, block: u64, len: nat) -> Seq<u8> {
    choose|s: Seq<u8>| s.len() == len && same_source(device, block, s)
}

/// Holds of every device, block and byte sequence; it ties a choice of
/// bytes to the device and the block it stands for.
pub closed spec fn same_source<D>(device: &D, block: u64, s: Seq<u8>) -> bool {
    true
}

/// Largest buffer the kernel heap hands out (4 MiB).
pub const HEAP_LIMIT: u32 = 0x40_0000;

/// Block I/O the filesystem runs on: the callbacks a disk driver supplies.
pub trait BlockDevice: Sized {
    /// The bytes a read of `len` bytes at block `block` returns: fixed by
    /// the device's state, the block and the length, and nothing more is
    /// known of them.
    open spec fn block_data(&self, block: u64, len: nat) -> Seq<u8> {
        device_bytes(self, block, len)
    }

    /// Read block `block` into `buffer`, whose length is the transfer size.
    fn read_block(&self, block: u64, buffer: &mut Vec<u8>) -> (r: Result<(), Ext4Error>)
        ensures
            final(buffer).len() == old(buffer).len(),
            r is Ok ==> final(buffer)@ == self.block_data(block, old(buffer).len() as nat),
    ;

    /// Write `buffer` to block `block`.
    fn write_block(&mut self, block: u64, buffer: &Vec<u8>) -> (r: Result<(), Ext4Error>);

    /// Flush the device's caches.
    fn sync(&mut self) -> (r: Result<(), Ext4Error>);
}

/// A zero-filled buffer of `size` bytes from the kernel heap: `NoMem` for
/// an empty request or one past the heap's 4 MiB.
fn alloc_block(size: u32) -> (r: Result<Vec<u8>, Ext4Error>)
    ensures
        size == 0 || size > HEAP_LIMIT ==> r == Err::<Vec<u8>, Ext4Error>(Ext4Error::NoMem),
        0 < size <= HEAP_LIMIT ==> (r matches Ok(v) && v.len() == size && forall|i: int|
            0 <= i < size ==> v@[i] == 0u8),
{
    if size == 0 || size > HEAP_LIMIT {
        return Err(Ext4Error::NoMem);
    }
    let mut v: Vec<u8> = Vec::new();
    while v.len() < size as usize
        invariant
            v.len() <= size,
            forall|i: int| 0 <= i < v.len() ==> v@[i] == 0u8,
        decreases size - v.len(),
    {
        v.push(0u8);
    }
    Ok(v)
}

/// A JBD2 block header (magic, block type, sequence).
#[derive(Clone, Copy, Debug)]
pub struct Jbd2Header {
    pub h_magic: u32,
    pub h_blocktype: u32,
    pub h_sequence: u32,
}

/// A JBD2 descriptor-block tag.
#[derive(Clone, Copy, Debug)]
pub struct Jbd2BlockTag {
    pub t_blocknr: u32,
    pub t_checksum: u16,
    pub t_flags: u16,
    pub t_blocknr_hi: u32,
}

/// The journal superblock fields the driver reads.
#[derive(Clone, Copy, Debug)]
pub struct Jbd2Superblock {
    pub s_header: Jbd2Header,
    pub s_blocksize: u32,
    pub s_maxlen: u32,
    pub s_first: u32,
    pub s_sequence: u32,
    pub s_start: u32,
    pub s_errno: u32,
    pub s_feature_compat: u32,
    pub s_feature_incompat: u32,
    pub s_feature_ro_compat: u32,
    pub s_nr_users: u32,
    pub s_dynsuper: u32,
    pub s_max_transaction: u32,
    pub s_max_trans_data: u32,
    pub s_checksum_type: u8,
    pub s_checksum: u32,
}

/// The journal superblock fields at their offsets in `b`, read in the
/// byte order the driver reads them (little-endian).
pub open spec fn jbd2_superblock_of(b: Seq<u8>) -> Jbd2Superblock {
    Jbd2Superblock {
        s_header: Jbd2Header { h_magic: le32(b, 0), h_blocktype: le32(b, 4), h_sequence: le32(b, 8) },
        s_blocksize: le32(b, 12),
        s_maxlen: le32(b, 16),
        s_first: le32(b, 20),
        s_sequence: le32(b, 24),
        s_start: le32(b, 28),
        s_errno: le32(b, 32),
        s_feature_compat: le32(b, 36),
        s_feature_incompat: le32(b, 40),
        s_feature_ro_compat: le32(b, 44),
        s_nr_users: le32(b, 64),
        s_dynsuper: le32(b, 68),
        s_max_transaction: le32(b, 72),
        s_max_trans_data: le32(b, 76),
        s_checksum_type: b[80],
        s_checksum: le32(b, 252),
    }
}

impl Jbd2Superblock {
    /// Decode the journal superblock at the start of `b`.
    pub fn parse(b: &Vec<u8>) -> (r: Jbd2Superblock)
        requires
            b.len() >= 256,
        ensures
            r == jbd2_superblock_of(b@),
    {
        Jbd2Superblock {
            s_header: Jbd2Header {
                h_magic: read_le32(b, 0),
                h_blocktype: read_le32(b, 4),
                h_sequence: read_le32(b, 8),
            },
            s_blocksize: read_le32(b, 12),
            s_maxlen: read_le32(b, 16),
            s_first: read_le32(b, 20),
            s_sequence: read_le32(b, 24),
            s_start: read_le32(b, 28),
            s_errno: read_le32(b, 32),
            s_feature_compat: read_le32(b, 36),
            s_feature_incompat: read_le32(b, 40),
            s_feature_ro_compat: read_le32(b, 44),
            s_nr_users: read_le32(b, 64),
            s_dynsuper: read_le32(b, 68),
            s_max_transaction: read_le32(b, 72),
            s_max_trans_data: read_le32(b, 76),
            s_checksum_type: b[80],
            s_checksum: read_le32(b, 252),
        }
    }
}

/// Blocks collected for one journal transaction.
pub struct Transaction {
    pub tid: u32,
    pub blocks: Vec<u64>,
    pub data: Vec<Vec<u8>>,
}

impl Transaction {
    /// An empty transaction with ID `tid`.
    pub fn new(tid: u32) -> (r: Transaction)
        ensures
            r.tid == tid && r.blocks@.len() == 0 && r.data@.len() == 0,
    {
        Transaction { tid, blocks: Vec::new(), data: Vec::new() }
    }

    /// Add the new contents `data` of block `block`.
    pub fn add_block(&mut self, block: u64, data: Vec<u8>)
        ensures
            final(self).tid == old(self).tid,
            final(self).blocks@ == old(self).blocks@.push(block),
            final(self).data@ == old(self).data@.push(data),
    {
        self.blocks.push(block);
        self.data.push(data);
    }
}

/// The journal: where it lives, the next transaction ID, its head and tail,
/// and the transaction being filled.
pub struct Journal {
    pub superblock: Jbd2Superblock,
    pub journal_start: u64,
    pub journal_length: u32,
    pub current_sequence: u32,
    pub head: u32,
    pub tail: u32,
    pub running: bool,
    pub current_transaction: Option<Transaction>,
}

impl Journal {
    /// The running journal at block `journal_start` described by
    /// `superblock`: its length, sequence and start taken from it, no open
    /// transaction.
    pub fn new(superblock: Jbd2Superblock, journal_start: u64) -> (r: Journal)
        ensures
            r.superblock == superblock,
            r.journal_start == journal_start,
            r.journal_length == superblock.s_maxlen,
            r.current_sequence == superblock.s_sequence,
            r.head == superblock.s_start && r.tail == superblock.s_start,
            r.running,
            r.current_transaction is None,
    {
        Journal {
            superblock,
            journal_start,
            journal_length: superblock.s_maxlen,
            current_sequence: superblock.s_sequence,
            head: superblock.s_start,
            tail: superblock.s_start,
            running: true,
            current_transaction: None,
        }
    }

    /// Open a transaction unless one is open: it takes the next sequence
    /// number (which wraps past 2^32 - 1).
    pub fn start_transaction(&mut self) -> (r: Result<(), Ext4Error>)
        ensures
            r is Ok,
            old(self).current_transaction is Some ==> final(self).current_transaction == old(
                self,
            ).current_transaction && final(self).current_sequence == old(self).current_sequence,
            old(self).current_transaction is None ==> {
                &&& final(self).current_transaction matches Some(t) && t.tid == old(self).current_sequence
                    && t.blocks@.len() == 0 && t.data@.len() == 0
                &&& final(self).current_sequence == vstd::wrapping::u32_specs::wrapping_add(
                    old(self).current_sequence,
                    1,
                )
            },
            final(self).superblock == old(self).superblock,
            final(self).journal_start == old(self).journal_start,
            final(self).journal_length == old(self).journal_length,
            final(self).head == old(self).head && final(self).tail == old(self).tail,
            final(self).running == old(self).running,
    {
        if self.current_transaction.is_some() {
            return Ok(());
        }
        let tid = self.current_sequence;
        self.current_sequence = self.current_sequence.wrapping_add(1);
        self.current_transaction = Some(Transaction::new(tid));
        Ok(())
    }

    /// Add the new contents `data` of block `block` to the open transaction,
    /// opening one first if none is.
    pub fn add_block(&mut self, block: u64, data: Vec<u8>) -> (r: Result<(), Ext4Error>)
        ensures
            r is Ok,
            final(self).current_transaction matches Some(t) && {
                let before: (Seq<u64>, Seq<Vec<u8>>) = match old(self).current_transaction {
                    Some(o) => (o.blocks@, o.data@),
                    None => (Seq::empty(), Seq::empty()),
                };
                &&& t.blocks@ == before.0.push(block)
                &&& t.data@ == before.1.push(data)
                &&& t.tid == match old(self).current_transaction {
                    Some(o) => o.tid,
                    None => old(self).current_sequence,
                }
            },
            final(self).journal_start == old(self).journal_start,
            final(self).journal_length == old(self).journal_length,
            final(self).head == old(self).head,
            final(self).running == old(self).running,
    {
        if self.current_transaction.is_none() {
            let _ = self.start_transaction();
        }
        let mut t = match self.current_transaction.take() {
            Some(t) => t,
            None => Transaction::new(0),
        };
        t.add_block(block, data);
        self.current_transaction = Some(t);
        Ok(())
    }
}

/// The journal block after `slot` in a journal of `length` blocks: back to
/// block 1 (past the journal superblock) at the end.
pub open spec fn next_slot(slot: u64, length: u32) -> u64 {
    if slot + 1 >= length {
        1
    } else {
        (slot + 1) as u64
    }
}

/// The journal-relative blocks a commit of `n` data blocks from `head`
/// uses: the descriptor at `head`, data from `head + 1` on (each step
/// wrapping to 1 at the end of the journal), then the commit block.
pub open spec fn commit_slots(head: u32, length: u32, n: nat) -> Seq<u64>
    decreases n,
{
    if n == 0 {
        seq![head as u64, (head + 1) as u64]
    } else {
        let prev = commit_slots(head, length, (n - 1) as nat);
        let last = prev.last();
        prev.drop_last().push(last).push(next_slot(last, length))
    }
}

/// The journal-relative blocks of a commit of `n` data blocks.
pub fn journal_slots(head: u32, length: u32, n: usize) -> (r: Vec<u64>)
    ensures
        r@ == commit_slots(head, length, n as nat),
        r.len() == n + 2,
{
    let mut slots: Vec<u64> = Vec::new();
    slots.push(head as u64);
    slots.push(head as u64 + 1);
    let mut i: usize = 0;
    while i < n
        invariant
            i <= n,
            slots@ == commit_slots(head, length, i as nat),
            slots.len() == i + 2,
        decreases n - i,
    {
        let last = slots[slots.len() - 1];
        let next = if last + 1 >= length as u64 {
            1
        } else {
            last + 1
        };
        slots.push(next);
        proof {
            let prev = commit_slots(head, length, i as nat);
            assert(prev.drop_last().push(prev.last()) =~= prev);
        }
        i = i + 1;
    }
    slots
}

/// The journal head after committing `n` data blocks from `head`: the
/// block after the commit block (cut to 32 bits, wrapping).
pub open spec fn head_after_commit(head: u32, length: u32, n: nat) -> u32 {
    vstd::wrapping::u32_specs::wrapping_add((commit_slots(head, length, n).last() % 0x1_0000_0000) as u32, 1)
}

/// A `size`-byte block holding a JBD2 header of type `blocktype` for
/// transaction `tid` (little-endian, as the driver writes it), zero after.
pub open spec fn header_block(size: nat, blocktype: u32, tid: u32) -> Seq<u8> {
    Seq::new(
        size,
        |i: int|
            if i < 4 {
                word_byte(JBD2_MAGIC_NUMBER, i)
            } else if i < 8 {
                word_byte(blocktype, i - 4)
            } else if i < 12 {
                word_byte(tid, i - 8)
            } else {
                0u8
            },
    )
}

fn put_word(b: &mut Vec<u8>, off: usize, v: u32)
    requires
        off + 4 <= old(b).len(),
    ensures
        final(b).len() == old(b).len(),
        forall|i: int|
            0 <= i < old(b).len() ==> final(b)@[i] == if off <= i < off + 4 {
                word_byte(v, i - off)
            } else {
                old(b)@[i]
            },
{
    b.set(off, (v & 0xFF) as u8);
    b.set(off + 1, ((v >> 8u32) & 0xFF) as u8);
    b.set(off + 2, ((v >> 16u32) & 0xFF) as u8);
    b.set(off + 3, ((v >> 24u32) & 0xFF) as u8);
}

/// A `size`-byte block with a JBD2 header.
pub fn make_header_block(size: u32, blocktype: u32, tid: u32) -> (r: Result<Vec<u8>, Ext4Error>)
    ensures
        size == 0 || size > HEAP_LIMIT ==> r == Err::<Vec<u8>, Ext4Error>(Ext4Error::NoMem),
        0 < size <= HEAP_LIMIT && size < 12 ==> r == Err::<Vec<u8>, Ext4Error>(Ext4Error::Invalid),
        12 <= size <= HEAP_LIMIT ==> r is Ok,
        r matches Ok(b) ==> b@ == header_block(size as nat, blocktype, tid),
{
    let mut b = alloc_block(size)?;
    if size < 12 {
        return Err(Ext4Error::Invalid);
    }
    put_word(&mut b, 0, JBD2_MAGIC_NUMBER);
    put_word(&mut b, 4, blocktype);
    put_word(&mut b, 8, tid);
    assert(b@ =~= header_block(size as nat, blocktype, tid));
    Ok(b)
}

/// A directory entry.
#[derive(Clone, Debug)]
pub struct Ext4DirEntry {
    pub inode: u32,
    pub rec_len: u16,
    pub name_len: u8,
    pub file_type: u8,
    pub name: Vec<u8>,
}

impl Ext4DirEntry {
    /// The entry's name.
    pub fn name_bytes(&self) -> (r: &Vec<u8>)
        ensures
            r@ == self.name@,
    {
        &self.name
    }
}

/// The physical block logical block `lblock` maps to through the extent
/// tree whose node is `node` (with `n` entries) and whose remaining depth is
/// `depth`, on device `d` with `bs`-byte blocks; `NotFound` where no entry
/// covers it, `Invalid` where a node's entries run past it.
pub open spec fn extent_lookup<D: BlockDevice>(
    d: &D,
    node: Seq<u8>,
    n: u16,
    depth: nat,
    lblock: u64,
    bs: u32,
) -> Result<u64, Ext4Error>
    decreases depth,
{
    if !entries_fit(node, n as int) {
        Err(Ext4Error::Invalid)
    } else if depth == 0 {
        leaf_target(node, n as int, lblock)
    } else {
        match index_child(node, n as int, lblock) {
            None => Err(Ext4Error::NotFound),
            Some(child) => {
                let c = d.block_data(child, bs as nat);
                if bs < 12 {
                    Err(Ext4Error::Invalid)
                } else {
                    extent_lookup(d, c, node_header(c).eh_entries, (depth - 1) as nat, lblock, bs)
                }
            },
        }
    }
}

/// The 32-bit pointer `k` of pointer block `b`.
pub open spec fn pointer_at(b: Seq<u8>, k: u64) -> u64 {
    le32(b, 4 * k) as u64
}

/// The physical block logical block `lblock` maps to through inode `i`'s
/// direct and indirect pointers, on device `d` with `bs`-byte blocks;
/// `Invalid` where a triple-indirect index runs past its block.
pub open spec fn indirect_lookup<D: BlockDevice>(d: &D, i: Ext4Inode, lblock: u64, bs: u32) -> Result<u64, Ext4Error> {
    let p = (bs / 4) as u64;
    if lblock < 12 {
        Ok(i.i_block@[lblock as int] as u64)
    } else if p == 0 {
        Err(Ext4Error::Invalid)
    } else {
        match indirect_path_of(p, lblock) {
            IndirectPath::Direct { index } => Ok(i.i_block@[index as int] as u64),
            IndirectPath::Single { index } => Ok(pointer_at(d.block_data(i.i_block@[12] as u64, bs as nat), index)),
            IndirectPath::Double { first, second } => {
                let ind = pointer_at(d.block_data(i.i_block@[13] as u64, bs as nat), first);
                Ok(pointer_at(d.block_data(ind, bs as nat), second))
            },
            IndirectPath::Triple { first, second, third } => {
                if first >= p {
                    Err(Ext4Error::Invalid)
                } else {
                    let dind = pointer_at(d.block_data(i.i_block@[14] as u64, bs as nat), first);
                    let ind = pointer_at(d.block_data(dind, bs as nat), second);
                    Ok(pointer_at(d.block_data(ind, bs as nat), third))
                }
            },
        }
    }
}

/// The physical block of logical block `lblock` of inode `i` on device `d`
/// with `bs`-byte blocks (0 for a hole), whichever mapping the inode uses.
pub open spec fn block_lookup<D: BlockDevice>(d: &D, i: Ext4Inode, lblock: u64, bs: u32) -> Result<u64, Ext4Error> {
    if i.i_flags & EXT4_EXTENTS_FL != 0 {
        let root = block_map_bytes(i);
        let h = node_header(root);
        if h.eh_magic != EXT4_EXT_MAGIC {
            Err(Ext4Error::Invalid)
        } else {
            extent_lookup(d, root, h.eh_entries, h.eh_depth as nat, lblock, bs)
        }
    } else {
        indirect_lookup(d, i, lblock, bs)
    }
}

/// Through a block-mapped inode with `p = bs / 4` pointers per block,
/// logical block `12 + l` for `l < p` is pointer `l` of the single-indirect
/// block `i_block[12]`, and logical block `12 + p + l` for `l < p * p` is
/// pointer `l % p` of the block named by pointer `l / p` of the
/// double-indirect block `i_block[13]`.
pub proof fn lemma_indirect_lookup_by_position<D: BlockDevice>(d: &D, i: Ext4Inode, lblock: u64, bs: u32)
    requires
        i.i_flags & EXT4_EXTENTS_FL == 0,
        bs >= 4,
    ensures
        ({
            let p: int = bs as int / 4;
            let l: int = lblock - 12;
            12 <= lblock < 12 + p ==> block_lookup(d, i, lblock, bs) == Ok::<u64, Ext4Error>(
                pointer_at(d.block_data(i.i_block@[12] as u64, bs as nat), l as u64),
            )
        }),
        ({
            let p: int = bs as int / 4;
            let l: int = lblock - 12 - p;
            12 + p <= lblock < 12 + p + p * p ==> block_lookup(d, i, lblock, bs) == Ok::<u64, Ext4Error>(
                pointer_at(
                    d.block_data(
                        pointer_at(d.block_data(i.i_block@[13] as u64, bs as nat), (l / p) as u64),
                        bs as nat,
                    ),
                    (l % p) as u64,
                ),
            )
        }),
{
    let p: u64 = (bs / 4) as u64;
    lemma_indirect_path_names_block(p, lblock);
    if 12 + p <= lblock && lblock < 12 + p + p * p {
        let l: int = lblock - 12 - p;
        match indirect_path_of(p, lblock) {
            IndirectPath::Double { first, second } => {
                vstd::arithmetic::div_mod::lemma_fundamental_div_mod_converse(l, p as int, first as int, second as int);
            },
            _ => {},
        }
    }
}

/// The outcome of a lookup of logical block `lblock` of inode `i` with
/// `bs`-byte blocks where it is settled before any block is read: a bad
/// root node, a leaf root, a root index with no entry for it, a direct slot,
/// a triple-indirect index past its block, or no buffer for the read
/// (`NoMem` for an empty block size or one past the heap); `None` where the
/// lookup goes on to read the device.
pub open spec fn lookup_without_device(i: Ext4Inode, lblock: u64, bs: u32) -> Option<Result<u64, Ext4Error>> {
    if i.i_flags & EXT4_EXTENTS_FL != 0 {
        let root = block_map_bytes(i);
        let h = node_header(root);
        if h.eh_magic != EXT4_EXT_MAGIC || !entries_fit(root, h.eh_entries as int) {
            Some(Err(Ext4Error::Invalid))
        } else if h.eh_depth == 0 {
            Some(leaf_target(root, h.eh_entries as int, lblock))
        } else if index_child(root, h.eh_entries as int, lblock) is None {
            Some(Err(Ext4Error::NotFound))
        } else if bs == 0 || bs > HEAP_LIMIT {
            Some(Err(Ext4Error::NoMem))
        } else {
            None
        }
    } else {
        let p = (bs / 4) as u64;
        if lblock < 12 {
            Some(Ok(i.i_block@[lblock as int] as u64))
        } else if p == 0 {
            Some(Err(Ext4Error::Invalid))
        } else if indirect_path_of(p, lblock) matches IndirectPath::Triple { first, .. } && first >= p {
            Some(Err(Ext4Error::Invalid))
        } else if bs > HEAP_LIMIT {
            Some(Err(Ext4Error::NoMem))
        } else {
            None
        }
    }
}

/// Where a lookup is settled before any read (with a buffer to read
/// into), it has the outcome `block_lookup` gives.
pub proof fn lemma_lookup_settled<D: BlockDevice>(d: &D, i: Ext4Inode, lblock: u64, bs: u32)
    requires
        0 < bs <= HEAP_LIMIT,
    ensures
        lookup_without_device(i, lblock, bs) matches Some(x) ==> block_lookup(d, i, lblock, bs) == x,
{
}

/// The error a read of inode `n` ends in before the device is read, with
/// geometry `geo` and group descriptors `descs`: inode 0 or an empty group
/// or block size, an inode that cannot be located, no buffer for its block;
/// `None` where the read goes on to the device.
pub open spec fn inode_read_settled(geo: Ext4Geometry, descs: Seq<Ext4GroupDesc>, n: u32) -> Option<Ext4Error> {
    if n == 0 || geo.inodes_per_group == 0 || geo.block_size == 0 {
        Some(Ext4Error::Invalid)
    } else if inode_location_of(geo, descs, n) is Err {
        Some(inode_location_of(geo, descs, n)->Err_0)
    } else if geo.block_size > HEAP_LIMIT {
        Some(Ext4Error::NoMem)
    } else {
        None
    }
}

/// The error a commit of an open transaction ends in before anything is
/// written, with `bs`-byte blocks on a mount that is read-only when
/// `readonly`: no buffer for the header blocks, blocks too small for a
/// header, or a read-only mount; `None` where the commit goes on to write.
pub open spec fn commit_settled(bs: u32, readonly: bool) -> Option<Ext4Error> {
    if bs == 0 || bs > HEAP_LIMIT {
        Some(Ext4Error::NoMem)
    } else if bs < 12 {
        Some(Ext4Error::Invalid)
    } else if readonly {
        Some(Ext4Error::Permission)
    } else {
        None
    }
}

/// `j` is the journal of `fs` as read from the device: the first block of
/// the journal inode is not a hole, holds a journal superblock with the JBD2
/// magic number, and `j` is the running journal it describes.
pub open spec fn journal_found<D: BlockDevice>(fs: &Ext4Filesystem<D>, j: Journal) -> bool {
    &&& inode_record(fs, fs.superblock.s_journal_inum) matches Some(ji)
    &&& block_lookup(&fs.device, ji, 0, fs.geometry.block_size) == Ok::<u64, Ext4Error>(j.journal_start)
    &&& j.journal_start != 0
    &&& j.superblock == jbd2_superblock_of(fs.device.block_data(j.journal_start, fs.geometry.block_size as nat))
    &&& j.superblock.s_header.h_magic == JBD2_MAGIC_NUMBER
    &&& j.journal_length == j.superblock.s_maxlen
    &&& j.current_sequence == j.superblock.s_sequence
    &&& j.head == j.superblock.s_start && j.tail == j.superblock.s_start
    &&& j.running
    &&& j.current_transaction is None
}

/// A mounted ext4 filesystem on a block device.
pub struct Ext4Filesystem<D: BlockDevice> {
    pub device: D,
    pub superblock: Ext4Superblock,
    pub group_descs: Vec<Ext4GroupDesc>,
    pub journal: Option<Journal>,
    pub geometry: Ext4Geometry,
    pub readonly: bool,
    /// The writes and syncs handed to the device since the mount, in order.
    pub calls: Ghost<Seq<DeviceCall>>,
}

/// A call the filesystem hands to its device.
pub enum DeviceCall {
    /// Write `data` to block `block`.
    Write(u64, Seq<u8>),
    /// Flush the device's caches.
    Sync,
}

/// The calls a commit hands to the device for a transaction with ID `tid`
/// of blocks `blocks` with contents `data`, in a journal of `length`
/// blocks at block `start` whose head is `head`, with `bs`-byte blocks: the
/// descriptor block, the data blocks and the commit block at the slots
/// `commit_slots` gives (relative to `start`), then each block at its home
/// location, then a sync.
pub open spec fn commit_calls(
    start: u64,
    head: u32,
    length: u32,
    tid: u32,
    blocks: Seq<u64>,
    data: Seq<Seq<u8>>,
    bs: u32,
) -> Seq<DeviceCall> {
    let n = data.len();
    let slots = commit_slots(head, length, n);
    let home_count = if blocks.len() < n {
        blocks.len()
    } else {
        n
    };
    seq![DeviceCall::Write(start.wrapping_add(slots[0]), header_block(bs as nat, JBD2_DESCRIPTOR_BLOCK, tid))]
        + Seq::new(n, |i: int| DeviceCall::Write(start.wrapping_add(slots[i + 1]), data[i]))
        + seq![DeviceCall::Write(start.wrapping_add(slots[n as int + 1]), header_block(bs as nat, JBD2_COMMIT_BLOCK, tid))]
        + Seq::new(home_count, |k: int| DeviceCall::Write(blocks[k], data[k]))
        + seq![DeviceCall::Sync]
}

/// What a commit hands the device: first the descriptor, then a journal
/// copy of every block's data, then the commit block; after the commit
/// block every block of the transaction is written, in order, with its data
/// at its home location; last a sync.
pub proof fn lemma_commit_writes_home(
    start: u64,
    head: u32,
    length: u32,
    tid: u32,
    blocks: Seq<u64>,
    data: Seq<Seq<u8>>,
    bs: u32,
)
    ensures
        ({
            let cc = commit_calls(start, head, length, tid, blocks, data, bs);
            let n = data.len() as int;
            &&& cc.len() >= n + 3
            &&& cc[0] matches DeviceCall::Write(_, d) && d == header_block(bs as nat, JBD2_DESCRIPTOR_BLOCK, tid)
            &&& forall|i: int|
                #![trigger data[i]]
                0 <= i < n ==> (cc[1 + i] matches DeviceCall::Write(_, d) && d == data[i])
            &&& cc[n + 1] matches DeviceCall::Write(_, d) && d == header_block(bs as nat, JBD2_COMMIT_BLOCK, tid)
            &&& forall|k: int|
                #![trigger blocks[k]]
                0 <= k < blocks.len() && k < n ==> n + 2 + k < cc.len() - 1 && cc[n + 2 + k] == DeviceCall::Write(
                    blocks[k],
                    data[k],
                )
            &&& cc.last() == DeviceCall::Sync
        }),
{
    let cc = commit_calls(start, head, length, tid, blocks, data, bs);
    let n = data.len() as int;
    let home_count: int = if blocks.len() < n {
        blocks.len() as int
    } else {
        n
    };
    assert(cc.len() == n + home_count + 3);
    assert forall|i: int| #![trigger data[i]] 0 <= i < n implies (cc[1 + i] matches DeviceCall::Write(_, d) && d
        == data[i]) by {
        assert(cc[1 + i] == DeviceCall::Write(start.wrapping_add(commit_slots(head, length, data.len())[i + 1]), data[i]));
    }
    assert forall|k: int|
        #![trigger blocks[k]]
        0 <= k < blocks.len() && k < n implies n + 2 + k < cc.len() - 1 && cc[n + 2 + k] == DeviceCall::Write(
            blocks[k],
            data[k],
        ) by {
        assert(k < home_count);
    }
}

/// The error a write of inode `n` on `fs` ends in before the device is
/// read: inode 0 or a read-only mount (`Invalid`), then those of a read
/// (`inode_read_settled`); `None` where the write goes on to the device.
pub open spec fn inode_write_settled<D: BlockDevice>(fs: &Ext4Filesystem<D>, n: u32) -> Option<Ext4Error> {
    if n == 0 || fs.readonly {
        Some(Ext4Error::Invalid)
    } else if inode_read_settled(fs.geometry, fs.group_descs@, n) is Some {
        inode_read_settled(fs.geometry, fs.group_descs@, n)
    } else if inode_location_of(fs.geometry, fs.group_descs@, n)->Ok_0.1 + EXT4_INODE_RECORD_SIZE
        > fs.geometry.block_size {
        Some(Ext4Error::Invalid)
    } else {
        None
    }
}

/// `q` is block `data` with inode `i` encoded as the record at `off`: the
/// record decodes to `i` and every other byte is as in `data`.
pub open spec fn inode_patched(q: Seq<u8>, data: Seq<u8>, off: int, i: Ext4Inode) -> bool {
    &&& q.len() == data.len()
    &&& inode_of(q, off) == i
    &&& forall|j: int| 0 <= j < data.len() && (j < off || j >= off + EXT4_INODE_RECORD_SIZE) ==> q[j] == data[j]
}

/// The filesystem has a running journal.
pub open spec fn journal_running<D: BlockDevice>(fs: &Ext4Filesystem<D>) -> bool {
    fs.journal matches Some(j) && j.running
}

/// Going from `a` to `b`, block `block` was written with contents `q`:
/// queued as the last block of the open transaction while the journal runs
/// (with nothing handed to the device), else handed to the device.
pub open spec fn block_written<D: BlockDevice>(
    a: &Ext4Filesystem<D>,
    b: &Ext4Filesystem<D>,
    block: u64,
    q: Seq<u8>,
) -> bool {
    if journal_running(a) {
        &&& b.calls@ == a.calls@
        &&& b.journal matches Some(j) && (j.current_transaction matches Some(t) && t.blocks@.len() > 0
            && t.blocks@.last() == block && t.data@.len() > 0 && t.data@.last()@ == q)
    } else {
        b.calls@ == a.calls@.push(DeviceCall::Write(block, q))
    }
}

/// Going from `a` to `b`, the block holding the record of inode `n` was
/// written (as `block_written` says) with the device's bytes of that block,
/// the record of `n` replaced by `i`.
pub open spec fn inode_block_written<D: BlockDevice>(
    a: &Ext4Filesystem<D>,
    b: &Ext4Filesystem<D>,
    n: u32,
    i: Ext4Inode,
) -> bool {
    let loc = inode_location_of(a.geometry, a.group_descs@, n)->Ok_0;
    exists|q: Seq<u8>|
        #[trigger] inode_patched(q, a.device.block_data(loc.0, a.geometry.block_size as nat), loc.1 as int, i)
            && block_written(a, b, loc.0, q)
}

/// The contents of the blocks of transaction `t`.
pub open spec fn transaction_data(t: &Transaction) -> Seq<Seq<u8>> {
    t.data@.map_values(|v: Vec<u8>| v@)
}

impl<D: BlockDevice> Ext4Filesystem<D> {
    /// The inode record of inode `inode_num`: `Invalid` for inode 0, an
    /// inode past the groups, or a record running past its block.
    pub fn read_inode(&self, inode_num: u32) -> (r: Result<Ext4Inode, Ext4Error>)
        ensures
            inode_num == 0 ==> r == Err::<Ext4Inode, Ext4Error>(Ext4Error::Invalid),
            inode_read_settled(self.geometry, self.group_descs@, inode_num) matches Some(e) ==> r == Err::<
                Ext4Inode,
                Ext4Error,
            >(e),
            r matches Ok(i) ==> self.geometry.inodes_per_group > 0 && self.geometry.block_size > 0
                && (inode_location_of(self.geometry, self.group_descs@, inode_num) matches Ok(loc) && i
                == inode_of(self.device.block_data(loc.0, self.geometry.block_size as nat), loc.1 as int)),
    {
        if inode_num == 0 {
            return Err(Ext4Error::Invalid);
        }
        if self.geometry.inodes_per_group == 0 || self.geometry.block_size == 0 {
            return Err(Ext4Error::Invalid);
        }
        let (block, offset) = inode_location(&self.geometry, &self.group_descs, inode_num)?;
        let mut buffer = alloc_block(self.geometry.block_size)?;
        self.device.read_block(block, &mut buffer)?;
        if offset as usize > buffer.len() || buffer.len() - (offset as usize) < EXT4_INODE_RECORD_SIZE {
            return Err(Ext4Error::Invalid);
        }
        Ok(Ext4Inode::parse(&buffer, offset as usize))
    }

    /// The physical block of logical block `logical_block` of `inode`
    /// through its extent tree: each index level names the child block,
    /// which is read and searched in turn, down to the leaf extents.
    fn get_block_from_extent(&self, inode: &Ext4Inode, logical_block: u64) -> (r: Result<u64, Ext4Error>)
        requires
            inode.i_flags & EXT4_EXTENTS_FL != 0,
        ensures
            r is Ok ==> r == block_lookup(&self.device, *inode, logical_block, self.geometry.block_size),
            lookup_without_device(*inode, logical_block, self.geometry.block_size) matches Some(x) ==> r == x,
    {
        let bs = self.geometry.block_size;
        let root = inode_block_map(inode);
        let header = parse_node_header(&root);
        if header.eh_magic != EXT4_EXT_MAGIC {
            return Err(Ext4Error::Invalid);
        }
        let mut depth = header.eh_depth;
        let mut node = root;
        let mut entries = header.eh_entries;
        let ghost target = block_lookup(&self.device, *inode, logical_block, bs);
        let ghost decided = lookup_without_device(*inode, logical_block, bs);
        let ghost mut first = true;
        while depth > 0
            invariant
                target == extent_lookup(&self.device, node@, entries, depth as nat, logical_block, bs),
                bs == self.geometry.block_size,
                decided == lookup_without_device(*inode, logical_block, bs),
                inode.i_flags & EXT4_EXTENTS_FL != 0,
                first ==> node@ == block_map_bytes(*inode) && entries == node_header(node@).eh_entries
                    && depth == node_header(node@).eh_depth && node_header(node@).eh_magic == EXT4_EXT_MAGIC,
                !first ==> decided is None,
            decreases depth,
        {
            if node.len() < 12 || (node.len() - 12) / 12 < entries as usize {
                return Err(Ext4Error::Invalid);
            }
            let child = match search_index(&node, entries, logical_block) {
                Some(c) => c,
                None => {
                    return Err(Ext4Error::NotFound);
                },
            };
            let mut buffer = alloc_block(bs)?;
            self.device.read_block(child, &mut buffer)?;
            if buffer.len() < 12 {
                return Err(Ext4Error::Invalid);
            }
            let h = parse_node_header(&buffer);
            entries = h.eh_entries;
            node = buffer;
            depth = depth - 1;
            proof {
                first = false;
            }
        }
        if node.len() < 12 || (node.len() - 12) / 12 < entries as usize {
            return Err(Ext4Error::Invalid);
        }
        search_leaf(&node, entries, logical_block)
    }

    /// Pointer `index` of pointer block `block`.
    fn read_pointer(&self, block: u64, index: u64) -> (r: Result<u64, Ext4Error>)
        requires
            index < (self.geometry.block_size / 4) as u64,
        ensures
            r matches Ok(v) ==> v == pointer_at(self.device.block_data(block, self.geometry.block_size as nat), index),
            self.geometry.block_size > HEAP_LIMIT ==> r == Err::<u64, Ext4Error>(Ext4Error::NoMem),
    {
        let mut buffer = alloc_block(self.geometry.block_size)?;
        self.device.read_block(block, &mut buffer)?;
        let off = (index * 4) as usize;
        Ok(read_le32(&buffer, off) as u64)
    }

    /// The physical block of logical block `logical_block` of `inode`
    /// through its direct and indirect pointers.
    fn get_block_indirect(&self, inode: &Ext4Inode, logical_block: u64) -> (r: Result<u64, Ext4Error>)
        requires
            inode.i_flags & EXT4_EXTENTS_FL == 0,
        ensures
            r is Ok ==> r == block_lookup(&self.device, *inode, logical_block, self.geometry.block_size),
            lookup_without_device(*inode, logical_block, self.geometry.block_size) matches Some(x) ==> r == x,
    {
        let p = (self.geometry.block_size / 4) as u64;
        if logical_block < 12 {
            return Ok(inode.i_block[logical_block as usize] as u64);
        }
        if p == 0 {
            return Err(Ext4Error::Invalid);
        }
        match indirect_path(p, logical_block) {
            IndirectPath::Direct { index } => Ok(inode.i_block[index as usize] as u64),
            IndirectPath::Single { index } => self.read_pointer(inode.i_block[12] as u64, index),
            IndirectPath::Double { first, second } => {
                proof {
                    let l: int = logical_block - 12 - p;
                    assert(l / (p as int) < p) by (nonlinear_arith)
                        requires
                            0 <= l < p * p,
                            p > 0,
                    ;
                }
                let ind = self.read_pointer(inode.i_block[13] as u64, first)?;
                self.read_pointer(ind, second)
            },
            IndirectPath::Triple { first, second, third } => {
                if first >= p {
                    return Err(Ext4Error::Invalid);
                }
                let dind = self.read_pointer(inode.i_block[14] as u64, first)?;
                let ind = self.read_pointer(dind, second)?;
                self.read_pointer(ind, third)
            },
        }
    }

    /// The physical block of logical block `logical_block` of `inode` (0
    /// for a hole).
    pub fn get_block(&self, inode: &Ext4Inode, logical_block: u64) -> (r: Result<u64, Ext4Error>)
        ensures
            r is Ok ==> r == block_lookup(&self.device, *inode, logical_block, self.geometry.block_size),
            lookup_without_device(*inode, logical_block, self.geometry.block_size) matches Some(x) ==> r == x,
    {
        if inode.uses_extents() {
            self.get_block_from_extent(inode, logical_block)
        } else {
            self.get_block_indirect(inode, logical_block)
        }
    }
}

/// Byte `pos` of the file with inode `i` on device `d` with `bs`-byte
/// blocks: zero in a hole.
pub open spec fn file_byte<D: BlockDevice>(d: &D, i: Ext4Inode, pos: int, bs: u32) -> u8 {
    match block_lookup(d, i, (pos / (bs as int)) as u64, bs) {
        Ok(pb) => if pb == 0 {
            0u8
        } else {
            d.block_data(pb, bs as nat)[pos % (bs as int)]
        },
        Err(_) => 0u8,
    }
}

/// Whether directory block `lb` of directory `dir` maps to a block holding
/// an entry `name` for inode `ino`.
pub open spec fn dir_block_has<D: BlockDevice>(d: &D, dir: Ext4Inode, lb: u64, name: Seq<u8>, ino: u32, bs: u32) -> bool {
    block_lookup(d, dir, lb, bs) matches Ok(pb) && pb != 0 && dir_scan(d.block_data(pb, bs as nat), 0, name)
        == Some(ino)
}

/// Whether directory block `lb` of directory `dir` maps to a hole or to a
/// block without an entry `name`.
pub open spec fn dir_block_lacks<D: BlockDevice>(d: &D, dir: Ext4Inode, lb: u64, name: Seq<u8>, bs: u32) -> bool {
    block_lookup(d, dir, lb, bs) matches Ok(pb) && (pb == 0 || dir_scan(d.block_data(pb, bs as nat), 0, name) is None)
}

/// Whether directory block `lb` of directory `dir` is the first to hold an
/// entry `name`, for inode `ino`: every block before it lacks one.
#[verifier::opaque]
pub open spec fn first_entry_block<D: BlockDevice>(d: &D, dir: Ext4Inode, lb: u64, name: Seq<u8>, ino: u32, bs: u32) -> bool {
    &&& dir_block_has(d, dir, lb, name, ino, bs)
    &&& forall|j: u64| j < lb ==> #[trigger] dir_block_lacks(d, dir, j, name, bs)
}

/// Whether some block of directory `dir` is the first to hold an entry
/// `name`, and that entry is for inode `ino`.
pub open spec fn dir_first_entry<D: BlockDevice>(d: &D, dir: Ext4Inode, name: Seq<u8>, ino: u32, bs: u32) -> bool {
    exists|lb: u64| #[trigger] first_entry_block(d, dir, lb, name, ino, bs)
}

/// Whether some block of directory `dir` holds an entry `name` for inode
/// `ino`.
pub open spec fn dir_has_entry<D: BlockDevice>(d: &D, dir: Ext4Inode, name: Seq<u8>, ino: u32, bs: u32) -> bool {
    exists|lb: u64| #[trigger] dir_block_has(d, dir, lb, name, ino, bs)
}

/// The record of inode `n` on the mounted filesystem `fs`, where it can be
/// located.
pub open spec fn inode_record<D: BlockDevice>(fs: &Ext4Filesystem<D>, n: u32) -> Option<Ext4Inode> {
    match inode_location_of(fs.geometry, fs.group_descs@, n) {
        Ok(loc) => Some(inode_of(fs.device.block_data(loc.0, fs.geometry.block_size as nat), loc.1 as int)),
        Err(_) => None,
    }
}

/// Directory `cur` of `fs` has an entry `name` for inode `child`.
pub open spec fn entry_step<D: BlockDevice>(fs: &Ext4Filesystem<D>, cur: u32, name: Seq<u8>, child: u32) -> bool {
    &&& inode_record(fs, cur) matches Some(dir)
    &&& dir_has_entry(&fs.device, dir, name, child, fs.geometry.block_size)
}

/// Length of the path component at `start`, counting from `k`: up to the
/// next slash or the end, at most 255 bytes.
pub open spec fn name_run(path: Seq<u8>, start: int, k: int) -> int
    decreases EXT4_NAME_LEN - k,
{
    if k >= EXT4_NAME_LEN || start + k >= path.len() || start + k < 0 || path[start + k] == 0x2F {
        k
    } else {
        name_run(path, start, k + 1)
    }
}

/// A component found by `next_component` has the length `name_run` gives.
proof fn lemma_name_run(path: Seq<u8>, start: int, len: int, k: int)
    requires
        0 <= start,
        component_len(path, start, len),
        0 <= k <= len,
    ensures
        name_run(path, start, k) == len,
    decreases len - k,
{
    if k < len {
        lemma_name_run(path, start, len, k + 1);
    }
}

/// Walking `path` from byte `pos` in directory `cur` of `fs` ends at inode
/// `ino`: with no component left the walk is at `cur`; else the next
/// component names an entry of directory `cur` for some inode from which the
/// rest of the path walks to `ino`.
#[verifier::opaque]
pub open spec fn walks_to<D: BlockDevice>(fs: &Ext4Filesystem<D>, path: Seq<u8>, pos: int, cur: u32, ino: u32) -> bool
    decreases path.len() - pos,
{
    let start = skip_slashes(path, pos);
    if pos < 0 || start >= path.len() || start < pos {
        ino == cur
    } else {
        let len = name_run(path, start, 0);
        if len <= 0 || start + len > path.len() {
            false
        } else {
            exists|child: u32|
                #[trigger] entry_step(fs, cur, path.subrange(start, start + len), child) && walks_to(
                    fs,
                    path,
                    start + len,
                    child,
                    ino,
                )
        }
    }
}

/// A walk with no component left ends where it is.
proof fn lemma_walk_end<D: BlockDevice>(fs: &Ext4Filesystem<D>, path: Seq<u8>, pos: int, cur: u32)
    requires
        0 <= pos,
        skip_slashes(path, pos) >= path.len(),
    ensures
        walks_to(fs, path, pos, cur, cur),
{
    reveal(walks_to);
}

/// A walk that takes the entry of the next component goes on from there.
proof fn lemma_walk_step<D: BlockDevice>(
    fs: &Ext4Filesystem<D>,
    path: Seq<u8>,
    pos: int,
    cur: u32,
    len: int,
    child: u32,
    ino: u32,
)
    requires
        0 <= pos <= skip_slashes(path, pos) < path.len(),
        component_len(path, skip_slashes(path, pos), len),
        0 < len,
        entry_step(fs, cur, path.subrange(skip_slashes(path, pos), skip_slashes(path, pos) + len), child),
        walks_to(fs, path, skip_slashes(path, pos) + len, child, ino),
    ensures
        walks_to(fs, path, pos, cur, ino),
{
    let start = skip_slashes(path, pos);
    lemma_name_run(path, start, len, 0);
    reveal(walks_to);
}

impl<D: BlockDevice> Ext4Filesystem<D> {
    /// The inode number of the entry `name` in directory `dir_inode`:
    /// the first directory block (in order) holding such an entry gives it;
    /// `NotFound` when none does.
    #[verifier::spinoff_prover]
    pub fn dir_find_entry(&self, dir_inode: &Ext4Inode, name: &Vec<u8>) -> (r: Result<u32, Ext4Error>)
        ensures
            r matches Ok(ino) ==> dir_has_entry(&self.device, *dir_inode, name@, ino, self.geometry.block_size),
            r matches Ok(ino) ==> dir_first_entry(&self.device, *dir_inode, name@, ino, self.geometry.block_size),
            self.geometry.block_size == 0 || self.geometry.block_size > HEAP_LIMIT ==> r == Err::<u32, Ext4Error>(
                Ext4Error::NoMem,
            ),
            0 < self.geometry.block_size <= HEAP_LIMIT && inode_size(*dir_inode) == 0 ==> r == Err::<u32, Ext4Error>(
                Ext4Error::NotFound,
            ),
            0 < self.geometry.block_size <= HEAP_LIMIT && inode_size(*dir_inode) > 0 ==> (lookup_without_device(
                *dir_inode,
                0,
                self.geometry.block_size,
            ) matches Some(Err(e)) ==> r == Err::<u32, Ext4Error>(e)),
    {
        let bs = self.geometry.block_size;
        let dir_size = dir_inode.size();
        let mut buffer = alloc_block(bs)?;
        let mut offset: u64 = 0;
        let ghost mut visited: nat = 0;
        while offset < dir_size
            invariant
                bs == self.geometry.block_size,
                bs > 0,
                buffer.len() == bs,
                dir_size == inode_size(*dir_inode),
                offset == u64::MAX || offset == visited * bs,
                bs <= HEAP_LIMIT,
                (offset == 0) == (visited == 0),
                forall|j: u64| j < visited ==> #[trigger] dir_block_lacks(&self.device, *dir_inode, j, name@, bs),
            decreases u64::MAX - offset,
        {
            let logical_block = offset / bs as u64;
            proof {
                assert(logical_block == visited) by (nonlinear_arith)
                    requires
                        offset == visited * bs,
                        bs > 0,
                        logical_block == offset / (bs as u64),
                ;
                if visited > 0 {
                    assert(dir_block_lacks(&self.device, *dir_inode, 0, name@, bs));
                    lemma_lookup_settled(&self.device, *dir_inode, 0, bs);
                }
            }
            let physical_block = self.get_block(dir_inode, logical_block)?;
            if physical_block != 0 {
                self.device.read_block(physical_block, &mut buffer)?;
                match dir_block_find(&buffer, name) {
                    Some(ino) => {
                        assert(block_lookup(&self.device, *dir_inode, logical_block, bs) == Ok::<u64, Ext4Error>(
                            physical_block,
                        ));
                        assert(buffer@ == self.device.block_data(physical_block, bs as nat));
                        assert(dir_scan(buffer@, 0, name@) == Some(ino));
                        assert(dir_block_has(&self.device, *dir_inode, logical_block, name@, ino, self.geometry.block_size));
                        assert(dir_has_entry(&self.device, *dir_inode, name@, ino, self.geometry.block_size));
                        assert(first_entry_block(&self.device, *dir_inode, logical_block, name@, ino, bs)) by {
                            reveal(first_entry_block);
                        }
                        assert(dir_first_entry(&self.device, *dir_inode, name@, ino, self.geometry.block_size));
                        return Ok(ino);
                    },
                    None => {
                        assert(dir_block_lacks(&self.device, *dir_inode, logical_block, name@, bs));
                    },
                }
            } else {
                assert(dir_block_lacks(&self.device, *dir_inode, logical_block, name@, bs));
            }
            let next = offset.saturating_add(bs as u64);
            proof {
                if next != u64::MAX {
                    assert(next == (visited + 1) * bs) by (nonlinear_arith)
                        requires
                            offset == visited * bs,
                            next == offset + bs,
                    ;
                }
                visited = visited + 1;
            }
            offset = next;
        }
        proof {
            if dir_size > 0 {
                assert(dir_block_lacks(&self.device, *dir_inode, 0, name@, bs));
                lemma_lookup_settled(&self.device, *dir_inode, 0, bs);
            }
        }
        Err(Ext4Error::NotFound)
    }

    /// The inode number of `path`: its components (slashes separate them,
    /// a component longer than 255 bytes is cut into pieces of 255) looked
    /// up one directory at a time from the root; a path without components
    /// is the root.
    #[verifier::spinoff_prover]
    pub fn lookup_path(&self, path: &Vec<u8>) -> (r: Result<u32, Ext4Error>)
        ensures
            skip_slashes(path@, 0) >= path.len() ==> r == Ok::<u32, Ext4Error>(EXT4_ROOT_INODE),
            r matches Ok(ino) ==> walks_to(self, path@, 0, EXT4_ROOT_INODE, ino),
    {
        let mut current = EXT4_ROOT_INODE;
        let mut pos: usize = 0;
        while pos < path.len()
            invariant
                pos <= path.len(),
                pos == 0 ==> current == EXT4_ROOT_INODE,
                skip_slashes(path@, 0) >= path.len() ==> pos == 0,
                forall|ino: u32|
                    walks_to(self, path@, pos as int, current, ino) ==> #[trigger] walks_to(
                        self,
                        path@,
                        0,
                        EXT4_ROOT_INODE,
                        ino,
                    ),
            ensures
                pos <= path.len(),
                skip_slashes(path@, pos as int) >= path.len(),
                skip_slashes(path@, 0) >= path.len() ==> current == EXT4_ROOT_INODE,
                forall|ino: u32|
                    walks_to(self, path@, pos as int, current, ino) ==> #[trigger] walks_to(
                        self,
                        path@,
                        0,
                        EXT4_ROOT_INODE,
                        ino,
                    ),
            decreases path.len() - pos,
        {
            let (start, len) = next_component(path, pos);
            if start >= path.len() {
                break;
            }
            let mut name: Vec<u8> = Vec::new();
            let mut k: usize = 0;
            while k < len
                invariant
                    k <= len,
                    start + len <= path.len(),
                    name.len() == k,
                    forall|j: int| 0 <= j < k ==> name@[j] == path@[start + j],
                decreases len - k,
            {
                name.push(path[start + k]);
                k = k + 1;
            }
            let inode = self.read_inode(current)?;
            let child = self.dir_find_entry(&inode, &name)?;
            proof {
                lemma_name_run(path@, start as int, len as int, 0);
                assert(name@ =~= path@.subrange(start as int, start + len));
                assert(inode_record(self, current) == Some(inode));
                assert(entry_step(self, current, path@.subrange(start as int, start + len), child));
                assert forall|ino: u32| walks_to(self, path@, (start + len) as int, child, ino) implies walks_to(
                    self,
                    path@,
                    pos as int,
                    current,
                    ino,
                ) by {
                    lemma_walk_step(self, path@, pos as int, current, len as int, child, ino);
                }
            }
            current = child;
            pos = start + len;
        }
        proof {
            lemma_walk_end(self, path@, pos as int, current);
        }
        Ok(current)
    }

    /// Copy bytes of the file `inode` from `offset` into `dst`: as many as
    /// fit and the file holds (see `read_amount`), holes read as zeros;
    /// bytes of `dst` past those read stay as they were.
    pub fn read_at_into(&self, inode: &Ext4Inode, offset: u64, dst: &mut Vec<u8>) -> (r: Result<usize, Ext4Error>)
        ensures
            final(dst).len() == old(dst).len(),
            read_amount(inode_size(*inode), offset, old(dst).len(), self.geometry.block_size) is Err ==> r
                == read_amount(inode_size(*inode), offset, old(dst).len(), self.geometry.block_size),
            read_amount(inode_size(*inode), offset, old(dst).len(), self.geometry.block_size) == Ok::<
                usize,
                Ext4Error,
            >(0) ==> r == Ok::<usize, Ext4Error>(0) && final(dst)@ == old(dst)@,
            r matches Ok(n) ==> {
                &&& read_amount(inode_size(*inode), offset, old(dst).len(), self.geometry.block_size) == Ok::<
                    usize,
                    Ext4Error,
                >(n)
                &&& forall|k: int|
                    0 <= k < n ==> final(dst)@[k] == file_byte(
                        &self.device,
                        *inode,
                        offset + k,
                        self.geometry.block_size,
                    )
                &&& forall|k: int| n <= k < old(dst).len() ==> final(dst)@[k] == old(dst)@[k]
            },
    {
        let bs = self.geometry.block_size;
        let file_size = inode.size();
        let to_read = read_at_amount(file_size, offset, dst.len(), bs)?;
        if to_read == 0 {
            return Ok(0);
        }
        let ghost d0 = dst@;
        let mut total: usize = 0;
        while total < to_read
            invariant
                bs == self.geometry.block_size,
                0 < bs <= 4096,
                to_read > 0,
                read_amount(inode_size(*inode), offset, old(dst).len(), bs) == Ok::<usize, Ext4Error>(to_read),
                to_read <= dst.len(),
                dst.len() == d0.len(),
                d0 == old(dst)@,
                total <= to_read,
                offset + to_read <= file_size,
                forall|k: int| 0 <= k < total ==> dst@[k] == file_byte(&self.device, *inode, offset + k, bs),
                forall|k: int| total <= k < dst.len() ==> dst@[k] == d0[k],
            decreases to_read - total,
        {
            let pos = offset + total as u64;
            let (logical_block, block_offset, chunk) = read_chunk(pos, to_read - total, bs);
            let physical_block = self.get_block(inode, logical_block)?;
            let mut scratch = alloc_block(bs)?;
            if physical_block != 0 {
                self.device.read_block(physical_block, &mut scratch)?;
            }
            let mut k: usize = 0;
            while k < chunk
                invariant
                    k <= chunk,
                    total + chunk <= to_read,
                    to_read <= dst.len(),
                    dst.len() == d0.len(),
                    block_offset + chunk <= bs,
                    scratch.len() == bs,
                    bs == self.geometry.block_size,
                    0 < bs,
                    (logical_block, block_offset, chunk) == read_piece(pos, (to_read - total) as usize, bs),
                    pos == offset + total,
                    block_lookup(&self.device, *inode, logical_block, bs) == Ok::<u64, Ext4Error>(physical_block),
                    physical_block != 0 ==> scratch@ == self.device.block_data(physical_block, bs as nat),
                    physical_block == 0 ==> forall|i: int| 0 <= i < bs ==> scratch@[i] == 0u8,
                    forall|j: int| 0 <= j < total + k ==> dst@[j] == file_byte(&self.device, *inode, offset + j, bs),
                    forall|j: int| total + k <= j < dst.len() ==> dst@[j] == d0[j],
                decreases chunk - k,
            {
                proof {
                    let p: int = offset + total + k;
                    assert(p / (bs as int) == logical_block && p % (bs as int) == block_offset + k) by (nonlinear_arith)
                        requires
                            p == pos + k,
                            logical_block == (pos as int) / (bs as int),
                            block_offset == (pos as int) % (bs as int),
                            block_offset + k < bs,
                            bs > 0,
                    ;
                }
                dst.set(total + k, scratch[block_offset + k]);
                k = k + 1;
            }
            total = total + chunk;
        }
        Ok(total)
    }

    /// Write `inode` as the record of inode `inode_num`: read the block
    /// holding the record, encode the record into it and hand the block to
    /// the journaled write. `Invalid` for inode 0, a read-only mount, an
    /// inode past the groups or a record running past its block, `NoMem`
    /// where no block buffer can be had; all of these before the device is
    /// asked anything. A failed read leaves the filesystem as it was.
    #[verifier::rlimit(40)]
    pub fn write_inode(&mut self, inode_num: u32, inode: &Ext4Inode) -> (r: Result<(), Ext4Error>)
        ensures
            inode_write_settled(old(self), inode_num) matches Some(e) ==> r == Err::<(), Ext4Error>(e)
                && *final(self) == *old(self),
            inode_write_settled(old(self), inode_num) is None ==> (r is Err && *final(self) == *old(self))
                || inode_block_written(old(self), final(self), inode_num, *inode),
            r is Ok ==> inode_write_settled(old(self), inode_num) is None && inode_block_written(
                old(self),
                final(self),
                inode_num,
                *inode,
            ),
            final(self).geometry == old(self).geometry,
            final(self).readonly == old(self).readonly,
    {
        if inode_num == 0 || self.readonly {
            return Err(Ext4Error::Invalid);
        }
        if self.geometry.inodes_per_group == 0 || self.geometry.block_size == 0 {
            return Err(Ext4Error::Invalid);
        }
        let (block, offset) = inode_location(&self.geometry, &self.group_descs, inode_num)?;
        let mut buffer = alloc_block(self.geometry.block_size)?;
        if offset as usize > buffer.len() || buffer.len() - (offset as usize) < EXT4_INODE_RECORD_SIZE {
            return Err(Ext4Error::Invalid);
        }
        self.device.read_block(block, &mut buffer)?;
        let ghost data = buffer@;
        inode.write_to(&mut buffer, offset as usize);
        let ghost before = *self;
        proof {
            assert(before == *old(self));
            assert(data == old(self).device.block_data(block, old(self).geometry.block_size as nat));
            assert(inode_patched(buffer@, data, offset as int, *inode));
        }
        let r = self.write_block_journaled(block, &buffer);
        proof {
            if !journal_running(&before) {
                assert(!before.readonly);
                assert(block_written(&before, self, block, buffer@));
            } else {
                assert(r is Ok);
            }
            assert(block_written(old(self), self, block, buffer@));
        }
        r
    }

    /// Write `buffer` to block `block`; `Permission` on a read-only mount.
    pub fn write_block(&mut self, block: u64, buffer: &Vec<u8>) -> (r: Result<(), Ext4Error>)
        ensures
            old(self).readonly ==> r == Err::<(), Ext4Error>(Ext4Error::Permission) && *final(self) == *old(self),
            !old(self).readonly ==> final(self).calls@ == old(self).calls@.push(DeviceCall::Write(block, buffer@)),
            final(self).readonly == old(self).readonly,
            final(self).geometry == old(self).geometry,
            final(self).journal == old(self).journal,
            final(self).superblock == old(self).superblock,
            final(self).group_descs@ == old(self).group_descs@,
    {
        if self.readonly {
            return Err(Ext4Error::Permission);
        }
        let r = self.device.write_block(block, buffer);
        proof {
            self.calls@ = self.calls@.push(DeviceCall::Write(block, buffer@));
        }
        r
    }

    /// Flush the device's caches.
    fn sync_device(&mut self) -> (r: Result<(), Ext4Error>)
        ensures
            final(self).calls@ == old(self).calls@.push(DeviceCall::Sync),
            final(self).readonly == old(self).readonly,
            final(self).geometry == old(self).geometry,
            final(self).journal == old(self).journal,
            final(self).superblock == old(self).superblock,
            final(self).group_descs@ == old(self).group_descs@,
    {
        let r = self.device.sync();
        proof {
            self.calls@ = self.calls@.push(DeviceCall::Sync);
        }
        r
    }

    /// The usage figures of the filesystem.
    pub fn statfs(&self) -> (r: Ext4FsStats)
        ensures
            r == crate::ext4::stats_of_spec(self.superblock, self.geometry),
    {
        stats_of(&self.superblock, &self.geometry)
    }

    /// The inode record of `path`.
    pub fn stat(&self, path: &Vec<u8>) -> (r: Result<Ext4Inode, Ext4Error>)
        ensures
            skip_slashes(path@, 0) >= path.len() ==> (inode_read_settled(
                self.geometry,
                self.group_descs@,
                EXT4_ROOT_INODE,
            ) matches Some(e) ==> r == Err::<Ext4Inode, Ext4Error>(e)),
            r matches Ok(i) ==> exists|ino: u32|
                #[trigger] walks_to(self, path@, 0, EXT4_ROOT_INODE, ino) && inode_record(self, ino) == Some(i),
    {
        let inode_num = self.lookup_path(path)?;
        let r = self.read_inode(inode_num);
        proof {
            if r is Ok {
                assert(walks_to(self, path@, 0, EXT4_ROOT_INODE, inode_num));
            }
        }
        r
    }

    /// Open `path`: its inode, at position 0.
    pub fn open(&self, path: &Vec<u8>, flags: u32) -> (r: Result<Ext4FileHandle, Ext4Error>)
        ensures
            skip_slashes(path@, 0) >= path.len() ==> (inode_read_settled(
                self.geometry,
                self.group_descs@,
                EXT4_ROOT_INODE,
            ) matches Some(e) ==> r == Err::<Ext4FileHandle, Ext4Error>(e)),
            r matches Ok(h) ==> h.position == 0 && h.flags == flags && walks_to(
                self,
                path@,
                0,
                EXT4_ROOT_INODE,
                h.inode_num,
            ) && inode_record(self, h.inode_num) == Some(h.inode),
    {
        let inode_num = self.lookup_path(path)?;
        let inode = self.read_inode(inode_num)?;
        Ok(Ext4FileHandle { inode_num, inode, position: 0, flags })
    }

    /// A memory-mapped view of `path`: its inode and size.
    pub fn open_mmap_file(&self, path: &Vec<u8>) -> (r: Result<Ext4MmapFile, Ext4Error>)
        ensures
            skip_slashes(path@, 0) >= path.len() ==> (inode_read_settled(
                self.geometry,
                self.group_descs@,
                EXT4_ROOT_INODE,
            ) matches Some(e) ==> r == Err::<Ext4MmapFile, Ext4Error>(e)),
            r matches Ok(m) ==> m.file_size == inode_size(m.inode) && exists|ino: u32|
                #[trigger] walks_to(self, path@, 0, EXT4_ROOT_INODE, ino) && inode_record(self, ino) == Some(m.inode),
    {
        let inode_num = self.lookup_path(path)?;
        let inode = self.read_inode(inode_num)?;
        let file_size = inode.size();
        Ok(Ext4MmapFile { inode, file_size })
    }
}

/// An open file: its inode and the read position.
pub struct Ext4FileHandle {
    pub inode_num: u32,
    pub inode: Ext4Inode,
    pub position: u64,
    pub flags: u32,
}

impl Ext4FileHandle {
    /// Read from the position into `buffer`, as many bytes as fit and the
    /// file holds (holes read as zeros), and move the position past them;
    /// `Ok(0)` at or past the end.
    pub fn read<D: BlockDevice>(&mut self, fs: &Ext4Filesystem<D>, buffer: &mut Vec<u8>) -> (r: Result<usize, Ext4Error>)
        ensures
            final(buffer).len() == old(buffer).len(),
            final(self).inode == old(self).inode,
            final(self).inode_num == old(self).inode_num,
            old(self).position >= inode_size(old(self).inode) ==> r == Ok::<usize, Ext4Error>(0),
            r matches Ok(n) ==> {
                &&& n == (if old(self).position >= inode_size(old(self).inode) {
                    0
                } else if old(buffer).len() <= inode_size(old(self).inode) - old(self).position {
                    old(buffer).len() as int
                } else {
                    inode_size(old(self).inode) - old(self).position
                })
                &&& final(self).position == old(self).position + n
                &&& forall|k: int|
                    0 <= k < n ==> final(buffer)@[k] == file_byte(
                        &fs.device,
                        old(self).inode,
                        old(self).position + k,
                        fs.geometry.block_size,
                    )
                &&& forall|k: int| n <= k < old(buffer).len() ==> final(buffer)@[k] == old(buffer)@[k]
            },
    {
        let file_size = self.inode.size();
        if self.position >= file_size {
            return Ok(0);
        }
        let remaining = file_size - self.position;
        let size: usize = if buffer.len() as u64 > remaining {
            remaining as usize
        } else {
            buffer.len()
        };
        let bs = fs.geometry.block_size;
        let mut block_buffer = alloc_block(bs)?;
        let ghost d0 = buffer@;
        let ghost start = self.position;
        let mut total: usize = 0;
        while total < size
            invariant
                bs == fs.geometry.block_size,
                0 < bs,
                block_buffer.len() == bs,
                size <= buffer.len(),
                buffer.len() == d0.len(),
                d0 == old(buffer)@,
                start == old(self).position,
                start < file_size,
                total <= size,
                start + size <= file_size,
                self.position == start + total,
                self.inode == old(self).inode,
                self.inode_num == old(self).inode_num,
                file_size == inode_size(self.inode),
                forall|k: int| 0 <= k < total ==> buffer@[k] == file_byte(&fs.device, self.inode, start + k, bs),
                forall|k: int| total <= k < buffer.len() ==> buffer@[k] == d0[k],
            decreases size - total,
        {
            let pos = self.position;
            let (logical_block, block_offset, chunk) = read_chunk(pos, size - total, bs);
            let physical_block = fs.get_block(&self.inode, logical_block)?;
            if physical_block != 0 {
                fs.device.read_block(physical_block, &mut block_buffer)?;
            }
            let mut k: usize = 0;
            while k < chunk
                invariant
                    k <= chunk,
                    total + chunk <= size,
                    size <= buffer.len(),
                    buffer.len() == d0.len(),
                    block_offset + chunk <= bs,
                    block_buffer.len() == bs,
                    0 < bs,
                    (logical_block, block_offset, chunk) == read_piece(pos, (size - total) as usize, bs),
                    pos == start + total,
                    block_lookup(&fs.device, self.inode, logical_block, bs) == Ok::<u64, Ext4Error>(physical_block),
                    physical_block != 0 ==> block_buffer@ == fs.device.block_data(physical_block, bs as nat),
                    forall|j: int| 0 <= j < total + k ==> buffer@[j] == file_byte(&fs.device, self.inode, start + j, bs),
                    forall|j: int| total + k <= j < buffer.len() ==> buffer@[j] == d0[j],
                decreases chunk - k,
            {
                proof {
                    let p: int = start + total + k;
                    assert(p / (bs as int) == logical_block && p % (bs as int) == block_offset + k) by (nonlinear_arith)
                        requires
                            p == pos + k,
                            logical_block == (pos as int) / (bs as int),
                            block_offset == (pos as int) % (bs as int),
                            block_offset + k < bs,
                            bs > 0,
                    ;
                }
                let b = if physical_block == 0 {
                    0u8
                } else {
                    block_buffer[block_offset + k]
                };
                buffer.set(total + k, b);
                k = k + 1;
            }
            total = total + chunk;
            self.position = self.position + chunk as u64;
        }
        Ok(total)
    }

    /// Move the position by `offset` from `whence` (see `seek_target`) and
    /// return it; the position stays on error.
    pub fn seek(&mut self, offset: i64, whence: SeekFrom) -> (r: Result<u64, Ext4Error>)
        ensures
            r == seek_target(old(self).position, inode_size(old(self).inode), offset, whence),
            r matches Ok(p) ==> final(self).position == p,
            r is Err ==> final(self).position == old(self).position,
            final(self).inode == old(self).inode,
    {
        let file_size = self.inode.size();
        let p = seek_position(self.position, file_size, offset, whence)?;
        self.position = p;
        Ok(p)
    }

    /// The position.
    pub fn tell(&self) -> (r: u64)
        ensures
            r == self.position,
    {
        self.position
    }

    /// Read at byte `offset` into `dst` without moving the position.
    pub fn read_at_into<D: BlockDevice>(&self, fs: &Ext4Filesystem<D>, offset: u64, dst: &mut Vec<u8>) -> (r: Result<
        usize,
        Ext4Error,
    >)
        ensures
            final(dst).len() == old(dst).len(),
            read_amount(inode_size(self.inode), offset, old(dst).len(), fs.geometry.block_size) is Err ==> r
                == read_amount(inode_size(self.inode), offset, old(dst).len(), fs.geometry.block_size),
            r matches Ok(n) ==> {
                &&& read_amount(inode_size(self.inode), offset, old(dst).len(), fs.geometry.block_size) == Ok::<
                    usize,
                    Ext4Error,
                >(n)
                &&& forall|k: int|
                    0 <= k < n ==> final(dst)@[k] == file_byte(&fs.device, self.inode, offset + k, fs.geometry.block_size)
                &&& forall|k: int| n <= k < old(dst).len() ==> final(dst)@[k] == old(dst)@[k]
            },
    {
        fs.read_at_into(&self.inode, offset, dst)
    }
}

/// A file mapped for demand paging: its inode and size.
pub struct Ext4MmapFile {
    pub inode: Ext4Inode,
    pub file_size: u64,
}

impl Ext4MmapFile {
    /// The file's size in bytes.
    pub fn size(&self) -> (r: u64)
        ensures
            r == self.file_size,
    {
        self.file_size
    }

    /// Read at byte `offset` into `dst`.
    pub fn read_at_into<D: BlockDevice>(&self, fs: &Ext4Filesystem<D>, offset: u64, dst: &mut Vec<u8>) -> (r: Result<
        usize,
        Ext4Error,
    >)
        ensures
            final(dst).len() == old(dst).len(),
            read_amount(inode_size(self.inode), offset, old(dst).len(), fs.geometry.block_size) is Err ==> r
                == read_amount(inode_size(self.inode), offset, old(dst).len(), fs.geometry.block_size),
            r matches Ok(n) ==> {
                &&& read_amount(inode_size(self.inode), offset, old(dst).len(), fs.geometry.block_size) == Ok::<
                    usize,
                    Ext4Error,
                >(n)
                &&& forall|k: int|
                    0 <= k < n ==> final(dst)@[k] == file_byte(&fs.device, self.inode, offset + k, fs.geometry.block_size)
                &&& forall|k: int| n <= k < old(dst).len() ==> final(dst)@[k] == old(dst)@[k]
            },
    {
        fs.read_at_into(&self.inode, offset, dst)
    }
}

/// What the first 2 KiB of a disk say of the filesystem on it: the
/// superblock in the second KiB and its geometry; `InvalidMagic` for a
/// wrong magic number, `Invalid` for groups of zero blocks.
pub open spec fn superblock_outcome(data: Seq<u8>) -> Result<(Ext4Superblock, Ext4Geometry), Ext4Error> {
    let sb = superblock_of(data.subrange(1024, 2048));
    if sb.s_magic != crate::ext4::EXT4_SUPER_MAGIC {
        Err(Ext4Error::InvalidMagic)
    } else if sb.s_blocks_per_group == 0 {
        Err(Ext4Error::Invalid)
    } else {
        Ok((sb, geometry_of(sb)))
    }
}

/// The superblock and geometry the first 2 KiB `buffer` of a disk hold
/// (see `superblock_outcome`).
pub fn superblock_from_start(buffer: &Vec<u8>) -> (r: Result<(Ext4Superblock, Ext4Geometry), Ext4Error>)
    requires
        buffer.len() == 2 * EXT4_MIN_BLOCK_SIZE,
    ensures
        r == superblock_outcome(buffer@),
{
    let sb = Ext4Superblock::parse(buffer, EXT4_SUPERBLOCK_OFFSET);
    if sb.s_magic != crate::ext4::EXT4_SUPER_MAGIC {
        return Err(Ext4Error::InvalidMagic);
    }
    if sb.s_blocks_per_group == 0 {
        return Err(Ext4Error::Invalid);
    }
    let geo = read_geometry(&sb)?;
    Ok((sb, geo))
}

/// Read the superblock of the filesystem on `device` (the second KiB of
/// the disk) and derive the geometry (see `superblock_outcome`); a failed
/// read fails.
fn read_superblock<D: BlockDevice>(device: &D) -> (r: Result<(Ext4Superblock, Ext4Geometry), Ext4Error>)
    ensures
        r matches Ok(v) ==> v.0 == superblock_of(device.block_data(0, 2048).subrange(1024, 2048)) && v.1
            == geometry_of(v.0) && v.0.s_magic == crate::ext4::EXT4_SUPER_MAGIC && v.0.s_blocks_per_group > 0,
        r is Ok ==> r == superblock_outcome(device.block_data(0, 2048)),
        superblock_outcome(device.block_data(0, 2048)) is Err ==> r is Err,
{
    let mut buffer = alloc_block(2 * EXT4_MIN_BLOCK_SIZE)?;
    device.read_block(0, &mut buffer)?;
    superblock_from_start(&buffer)
}

/// Read the block group descriptors that follow the superblock: as many as
/// there are groups, packed `block_size / desc_size` to a block, from block
/// 2 (1 KiB blocks) or block 1; `Invalid` when a descriptor is larger than
/// a block.
fn read_group_descriptors<D: BlockDevice>(device: &D, geo: &Ext4Geometry) -> (r: Result<Vec<Ext4GroupDesc>, Ext4Error>)
    requires
        geo.desc_size >= 32,
    ensures
        r matches Ok(v) ==> {
            &&& v.len() == min_of(desc_blocks_of(*geo) * (geo.block_size / geo.desc_size), geo.group_count as int)
            &&& forall|k: int| 0 <= k < v.len() ==> #[trigger] v@[k] == group_desc_at(device, *geo, k)
        },
        geo.block_size / geo.desc_size == 0 ==> r is Err && r->Err_0 == Ext4Error::Invalid,
        geo.block_size / geo.desc_size > 0 && geo.block_size > HEAP_LIMIT ==> r is Err && r->Err_0
            == Ext4Error::NoMem,
        geo.block_size / geo.desc_size > 0 && geo.block_size <= HEAP_LIMIT && desc_blocks_of(*geo) == 0 ==> (r
            matches Ok(v) && v.len() == 0),
{
    let bs = geo.block_size;
    let ds = geo.desc_size;
    let desc_per_block = bs / ds;
    if desc_per_block == 0 {
        return Err(Ext4Error::Invalid);
    }
    let desc_blocks = geo.group_count.wrapping_add(desc_per_block).wrapping_sub(1) / desc_per_block;
    let mut buffer = alloc_block(bs)?;
    let desc_start: u64 = if bs == EXT4_MIN_BLOCK_SIZE {
        2
    } else {
        1
    };
    let ghost gc = geo.group_count as int;
    let ghost per = desc_per_block as int;
    let mut descs: Vec<Ext4GroupDesc> = Vec::new();
    let mut i: u32 = 0;
    while i < desc_blocks
        invariant
            buffer.len() == bs,
            bs == geo.block_size,
            bs <= HEAP_LIMIT,
            ds == geo.desc_size,
            ds >= 32,
            desc_per_block == bs / ds,
            desc_per_block > 0,
            desc_start == (if bs == EXT4_MIN_BLOCK_SIZE { 2u64 } else { 1u64 }),
            desc_blocks == desc_blocks_of(*geo),
            i <= desc_blocks,
            gc == geo.group_count,
            per == desc_per_block,
            descs.len() == min_of(i * per, gc),
            forall|k: int| 0 <= k < descs.len() ==> #[trigger] descs@[k] == group_desc_at(device, *geo, k),
        decreases desc_blocks - i,
    {
        device.read_block(desc_start + i as u64, &mut buffer)?;
        assert((i + 1) * per == i * per + per) by (nonlinear_arith);
        let mut j: u32 = 0;
        while j < desc_per_block
            invariant
                buffer.len() == bs,
                bs == geo.block_size,
                ds == geo.desc_size,
                ds >= 32,
                desc_per_block == bs / ds,
                desc_per_block > 0,
                desc_start == (if bs == EXT4_MIN_BLOCK_SIZE { 2u64 } else { 1u64 }),
                i < desc_blocks,
                j <= desc_per_block,
                gc == geo.group_count,
                per == desc_per_block,
                (i + 1) * per == i * per + per,
                buffer@ == device.block_data((desc_start + i) as u64, bs as nat),
                descs.len() == min_of(i * per + j, gc),
                forall|k: int| 0 <= k < descs.len() ==> #[trigger] descs@[k] == group_desc_at(device, *geo, k),
            ensures
                descs.len() == min_of((i + 1) * per, gc),
                forall|k: int| 0 <= k < descs.len() ==> #[trigger] descs@[k] == group_desc_at(device, *geo, k),
            decreases desc_per_block - j,
        {
            let idx = i.wrapping_mul(desc_per_block).wrapping_add(j);
            if idx >= geo.group_count || descs.len() >= geo.group_count as usize {
                proof {
                    if i * per + j < 0x1_0000_0000 {
                        assert(idx == i * per + j) by (nonlinear_arith)
                            requires
                                idx == ((i * per) % 0x1_0000_0000 + j) % 0x1_0000_0000,
                                0 <= i * per + j < 0x1_0000_0000,
                                0 <= j,
                                0 <= i * per,
                        ;
                    }
                    assert(i * per + j <= (i + 1) * per) by (nonlinear_arith)
                        requires
                            j <= per,
                    ;
                }
                break;
            }
            assert((j as int) * (ds as int) + (ds as int) <= bs) by (nonlinear_arith)
                requires
                    j < desc_per_block,
                    desc_per_block == bs / ds,
                    ds > 0,
            ;
            let offset = (j as usize) * (ds as usize);
            let ghost k0 = descs.len() as int;
            descs.push(Ext4GroupDesc::parse(&buffer, offset, ds as usize));
            proof {
                assert(k0 == i * per + j);
                vstd::arithmetic::div_mod::lemma_fundamental_div_mod_converse(k0, per, i as int, j as int);
                assert(descs@[k0] == group_desc_at(device, *geo, k0));
            }
            j = j + 1;
        }
        i = i + 1;
    }
    Ok(descs)
}

/// The smaller of `a` and `b`.
pub open spec fn min_of(a: int, b: int) -> int {
    if a < b {
        a
    } else {
        b
    }
}

/// The number of descriptor blocks `read_group_descriptors` reads:
/// `group_count / per_block` rounded up (with the 32-bit wrapping of the
/// computation).
pub open spec fn desc_blocks_of(geo: Ext4Geometry) -> u32 {
    let per = geo.block_size / geo.desc_size;
    (geo.group_count.wrapping_add(per).wrapping_sub(1) / per) as u32
}

/// Group descriptor `k` on `d` for geometry `geo`: record `k % per_block`
/// (of `min(desc_size, 64)` bytes) of descriptor block `k / per_block`,
/// counted from block 2 for 1 KiB blocks and block 1 otherwise.
pub open spec fn group_desc_at<D: BlockDevice>(d: &D, geo: Ext4Geometry, k: int) -> Ext4GroupDesc {
    let per = (geo.block_size / geo.desc_size) as int;
    let start: int = if geo.block_size == EXT4_MIN_BLOCK_SIZE {
        2
    } else {
        1
    };
    let n: int = if geo.desc_size < EXT4_GROUP_DESC_RECORD_SIZE {
        geo.desc_size as int
    } else {
        EXT4_GROUP_DESC_RECORD_SIZE as int
    };
    group_desc_of(
        desc_bytes(d.block_data((start + k / per) as u64, geo.block_size as nat), (k % per) * geo.desc_size, n),
    )
}

impl<D: BlockDevice> Ext4Filesystem<D> {
    /// Mount the filesystem on `device`: read the superblock and group
    /// descriptors and, when the filesystem has a journal, the journal's
    /// superblock from the first block of the journal inode (`Journal` when
    /// it has none or a wrong magic number); a journal that needs recovery
    /// has the recovery flag cleared.
    pub fn mount(device: D) -> (r: Result<Ext4Filesystem<D>, Ext4Error>)
        ensures
            r matches Ok(fs) ==> {
                let sb = superblock_of(device.block_data(0, 2048).subrange(1024, 2048));
                &&& fs.geometry == geometry_of(sb)
                &&& fs.superblock.s_magic == crate::ext4::EXT4_SUPER_MAGIC
                &&& !fs.readonly
                &&& fs.group_descs@.len() == min_of(
                    desc_blocks_of(fs.geometry) * (fs.geometry.block_size / fs.geometry.desc_size),
                    fs.geometry.group_count as int,
                )
                &&& forall|k: int|
                    0 <= k < fs.group_descs@.len() ==> #[trigger] fs.group_descs@[k] == group_desc_at(
                        &device,
                        fs.geometry,
                        k,
                    )
                &&& (sb.s_feature_compat & EXT4_FEATURE_COMPAT_HAS_JOURNAL == 0 <==> fs.journal is None)
            },
            superblock_outcome(device.block_data(0, 2048)) is Err ==> r is Err,
    {
        let (sb, geo) = read_superblock(&device)?;
        let descs = read_group_descriptors(&device, &geo)?;
        let mut fs = Ext4Filesystem {
            device,
            superblock: sb,
            group_descs: descs,
            journal: None,
            geometry: geo,
            readonly: false,
            calls: Ghost(Seq::empty()),
        };
        fs.init_journal()?;
        Ok(fs)
    }

    /// Set up the journal (see `mount`).
    fn init_journal(&mut self) -> (r: Result<(), Ext4Error>)
        requires
            old(self).journal is None,
        ensures
            final(self).geometry == old(self).geometry,
            final(self).readonly == old(self).readonly,
            final(self).group_descs@ == old(self).group_descs@,
            final(self).superblock.s_magic == old(self).superblock.s_magic,
            final(self).superblock.s_feature_compat == old(self).superblock.s_feature_compat,
            r is Ok ==> (old(self).superblock.s_feature_compat & EXT4_FEATURE_COMPAT_HAS_JOURNAL == 0
                <==> final(self).journal is None),
            r is Ok && final(self).journal is Some ==> final(self).superblock.s_feature_incompat & EXT4_FEATURE_INCOMPAT_RECOVER
                == 0,
            old(self).superblock.s_feature_compat & EXT4_FEATURE_COMPAT_HAS_JOURNAL == 0 ==> r is Ok
                && final(self).journal is None && final(self).superblock == old(self).superblock,
            old(self).superblock.s_feature_compat & EXT4_FEATURE_COMPAT_HAS_JOURNAL != 0 ==> (inode_read_settled(
                old(self).geometry,
                old(self).group_descs@,
                old(self).superblock.s_journal_inum,
            ) matches Some(e) ==> r == Err::<(), Ext4Error>(e)),
            r is Ok && final(self).journal is Some ==> journal_found(old(self), final(self).journal->Some_0),
    {
        if (self.superblock.s_feature_compat & EXT4_FEATURE_COMPAT_HAS_JOURNAL) == 0 {
            return Ok(());
        }
        let j = self.find_journal()?;
        self.journal = Some(j);
        self.journal_recover();
        Ok(())
    }

    /// The journal stored in the journal inode: its first block holds the
    /// journal superblock.
    #[verifier::spinoff_prover]
    #[verifier::rlimit(40)]
    fn find_journal(&self) -> (r: Result<Journal, Ext4Error>)
        ensures
            r matches Ok(j) ==> j.running && j.current_transaction is None,
            r matches Ok(j) ==> journal_found(self, j),
            inode_read_settled(self.geometry, self.group_descs@, self.superblock.s_journal_inum) matches Some(e)
                ==> r == Err::<Journal, Ext4Error>(e),
    {
        let journal_inode = self.read_inode(self.superblock.s_journal_inum)?;
        let journal_start = self.get_block(&journal_inode, 0)?;
        if journal_start == 0 {
            return Err(Ext4Error::Journal);
        }
        let mut buffer = alloc_block(self.geometry.block_size)?;
        self.device.read_block(journal_start, &mut buffer)?;
        if buffer.len() < EXT4_SUPERBLOCK_SIZE {
            return Err(Ext4Error::Invalid);
        }
        let jsb = Jbd2Superblock::parse(&buffer);
        if jsb.s_header.h_magic != JBD2_MAGIC_NUMBER {
            return Err(Ext4Error::Journal);
        }
        Ok(Journal::new(jsb, journal_start))
    }

    /// Recover the journal: the recovery flag is cleared (no transaction
    /// is replayed).
    fn journal_recover(&mut self)
        ensures
            final(self).superblock == (Ext4Superblock {
                s_feature_incompat: old(self).superblock.s_feature_incompat & !EXT4_FEATURE_INCOMPAT_RECOVER,
                ..old(self).superblock
            }),
            final(self).superblock.s_feature_incompat & EXT4_FEATURE_INCOMPAT_RECOVER == 0,
            final(self).geometry == old(self).geometry,
            final(self).readonly == old(self).readonly,
            final(self).group_descs@ == old(self).group_descs@,
            final(self).journal == old(self).journal,
    {
        let before = self.superblock.s_feature_incompat;
        let f = before & !EXT4_FEATURE_INCOMPAT_RECOVER;
        assert(f & EXT4_FEATURE_INCOMPAT_RECOVER == 0) by (bit_vector)
            requires
                f == before & !4u32,
        ;
        self.superblock.s_feature_incompat = f;
    }

    /// Write block `block` through the journal when it runs: a copy of
    /// `data` joins the open transaction (opened if need be) and nothing
    /// reaches the device until the commit; without a running journal the
    /// block is written directly (`write_block`).
    pub fn write_block_journaled(&mut self, block: u64, data: &Vec<u8>) -> (r: Result<(), Ext4Error>)
        ensures
            final(self).geometry == old(self).geometry,
            final(self).readonly == old(self).readonly,
            journal_running(old(self)) ==> {
                &&& (data.len() == 0 || data.len() > HEAP_LIMIT) ==> r == Err::<(), Ext4Error>(Ext4Error::NoMem)
                    && *final(self) == *old(self)
                &&& (0 < data.len() <= HEAP_LIMIT) ==> r is Ok && final(self).calls@ == old(self).calls@ && (
                final(self).journal matches Some(j2) && j2.running && (j2.current_transaction matches Some(t) && {
                    let before: (Seq<u64>, Seq<Vec<u8>>) = match old(self).journal->Some_0.current_transaction {
                        Some(o) => (o.blocks@, o.data@),
                        None => (Seq::empty(), Seq::empty()),
                    };
                    &&& t.blocks@ == before.0.push(block)
                    &&& t.data@.drop_last() == before.1
                    &&& t.data@.len() == before.1.len() + 1
                    &&& t.data@.last()@ == data@
                }))
            },
            !journal_running(old(self)) ==> {
                &&& old(self).readonly ==> r == Err::<(), Ext4Error>(Ext4Error::Permission) && *final(self) == *old(
                    self,
                )
                &&& !old(self).readonly ==> final(self).calls@ == old(self).calls@.push(
                    DeviceCall::Write(block, data@),
                )
                &&& final(self).journal == old(self).journal
            },
            r is Ok ==> block_written(old(self), final(self), block, data@),
    {
        let mut j = match self.journal.take() {
            Some(j) => j,
            None => {
                return self.write_block(block, data);
            },
        };
        if !j.running {
            self.journal = Some(j);
            return self.write_block(block, data);
        }
        if data.len() == 0 || data.len() > HEAP_LIMIT as usize {
            self.journal = Some(j);
            return Err(Ext4Error::NoMem);
        }
        let mut copy = alloc_block(data.len() as u32)?;
        let mut i: usize = 0;
        while i < data.len()
            invariant
                copy.len() == data.len(),
                i <= data.len(),
                forall|k: int| 0 <= k < i ==> copy@[k] == data@[k],
            decreases data.len() - i,
        {
            copy.set(i, data[i]);
            i += 1;
        }
        assert(copy@ =~= data@);
        let _ = j.add_block(block, copy);
        self.journal = Some(j);
        Ok(())
    }

    /// Commit the open transaction: a descriptor block, the transaction's
    /// blocks and a commit block into the journal (at the slots
    /// `commit_slots` gives), then the blocks to their places, then a sync,
    /// in that order (`commit_calls`); the journal head moves past the commit
    /// block. A failed call ends the commit after it and keeps the
    /// transaction open, so that a later commit writes it again. Nothing
    /// happens without a journal or an open transaction.
    pub fn journal_commit(&mut self) -> (r: Result<(), Ext4Error>)
        ensures
            final(self).geometry == old(self).geometry,
            final(self).readonly == old(self).readonly,
            (match old(self).journal {
                None => r is Ok && final(self).journal is None,
                Some(j) => match j.current_transaction {
                    None => r is Ok,
                    Some(t) => final(self).journal matches Some(j2) && (r is Ok ==> j2.current_transaction is None)
                        && (r is Err ==> j2.current_transaction == Some(t) && j2.head == j.head) && (r is Ok
                        ==> j2.head == head_after_commit(j.head, j.journal_length, t.data@.len())) && (commit_settled(
                        old(self).geometry.block_size,
                        old(self).readonly,
                    ) matches Some(e) ==> r == Err::<(), Ext4Error>(e) && final(self).calls@ == old(self).calls@) && {
                        let cc = commit_calls(
                            j.journal_start,
                            j.head,
                            j.journal_length,
                            t.tid,
                            t.blocks@,
                            transaction_data(&t),
                            old(self).geometry.block_size,
                        );
                        &&& r is Ok ==> final(self).calls@ == old(self).calls@ + cc
                        &&& r is Err ==> exists|k: int|
                            0 <= k <= cc.len() && final(self).calls@ == old(self).calls@ + #[trigger] cc.take(k)
                    },
                },
            }),
            (match old(self).journal {
                Some(j) => j.current_transaction is None,
                None => true,
            }) ==> final(self).calls@ == old(self).calls@,
    {
        let mut j = match self.journal.take() {
            Some(j) => j,
            None => {
                return Ok(());
            },
        };
        let trans = match j.current_transaction.take() {
            Some(t) => t,
            None => {
                self.journal = Some(j);
                return Ok(());
            },
        };
        let r = self.commit_transaction(&mut j, &trans);
        if r.is_err() {
            j.current_transaction = Some(trans);
        }
        self.journal = Some(j);
        r
    }

    /// Write transaction `trans` out through journal `j` (see
    /// `journal_commit`).
    fn commit_transaction(&mut self, j: &mut Journal, trans: &Transaction) -> (r: Result<(), Ext4Error>)
        ensures
            final(self).geometry == old(self).geometry,
            final(self).readonly == old(self).readonly,
            final(j).current_transaction == old(j).current_transaction,
            r is Ok ==> final(j).head == head_after_commit(old(j).head, old(j).journal_length, trans.data@.len()),
            r is Err ==> final(j).head == old(j).head,
            commit_settled(old(self).geometry.block_size, old(self).readonly) matches Some(e) ==> r == Err::<
                (),
                Ext4Error,
            >(e) && final(self).calls@ == old(self).calls@,
            ({
                let cc = commit_calls(
                    old(j).journal_start,
                    old(j).head,
                    old(j).journal_length,
                    trans.tid,
                    trans.blocks@,
                    transaction_data(trans),
                    old(self).geometry.block_size,
                );
                &&& r is Ok ==> final(self).calls@ == old(self).calls@ + cc
                &&& r is Err ==> exists|k: int|
                    0 <= k <= cc.len() && final(self).calls@ == old(self).calls@ + #[trigger] cc.take(k)
            }),
            final(j).journal_start == old(j).journal_start,
            final(j).journal_length == old(j).journal_length,
    {
        let bs = self.geometry.block_size;
        let ghost cc = commit_calls(
            j.journal_start,
            j.head,
            j.journal_length,
            trans.tid,
            trans.blocks@,
            transaction_data(trans),
            bs,
        );
        let ghost n = trans.data@.len() as int;
        let ghost home = if trans.blocks@.len() < n {
            trans.blocks@.len() as int
        } else {
            n
        };
        let ghost c0 = self.calls@;
        let slots = journal_slots(j.head, j.journal_length, trans.data.len());
        proof {
            assert(cc.len() == n + home + 3);
            assert(c0 + cc.take(0) =~= c0);
        }
        let desc = make_header_block(bs, JBD2_DESCRIPTOR_BLOCK, trans.tid)?;
        let w = self.write_block(j.journal_start.wrapping_add(slots[0]), &desc);
        proof {
            if !old(self).readonly {
                assert(cc[0] == DeviceCall::Write(j.journal_start.wrapping_add(slots@[0]), desc@));
                assert(self.calls@ =~= c0 + cc.take(1));
            }
        }
        if let Err(e) = w {
            return Err(e);
        }
        let mut i: usize = 0;
        while i < trans.data.len()
            invariant
                slots@ == commit_slots(j.head, j.journal_length, trans.data@.len()),
                slots.len() == trans.data.len() + 2,
                i <= trans.data.len(),
                self.geometry == old(self).geometry,
                self.readonly == old(self).readonly,
                *j == *old(j),
                commit_settled(old(self).geometry.block_size, old(self).readonly) is None,
                bs == old(self).geometry.block_size,
                n == trans.data@.len(),
                cc.len() == n + home + 3,
                cc == commit_calls(
                    old(j).journal_start,
                    old(j).head,
                    old(j).journal_length,
                    trans.tid,
                    trans.blocks@,
                    transaction_data(trans),
                    old(self).geometry.block_size,
                ),
                home == (if trans.blocks@.len() < n { trans.blocks@.len() as int } else { n }),
                c0 == old(self).calls@,
                self.calls@ == c0 + cc.take(1 + i),
            decreases trans.data.len() - i,
        {
            let w = self.write_block(j.journal_start.wrapping_add(slots[i + 1]), &trans.data[i]);
            proof {
                assert(transaction_data(trans)[i as int] == trans.data@[i as int]@);
                assert(cc[1 + i] == DeviceCall::Write(
                    j.journal_start.wrapping_add(slots@[i + 1]),
                    trans.data@[i as int]@,
                ));
                assert(self.calls@ =~= c0 + cc.take(1 + i + 1));
            }
            if let Err(e) = w {
                return Err(e);
            }
            i = i + 1;
        }
        proof {
            assert(self.calls@ == c0 + cc.take(n + 1));
        }
        let commit = make_header_block(bs, JBD2_COMMIT_BLOCK, trans.tid)?;
        let last = slots[slots.len() - 1];
        let w = self.write_block(j.journal_start.wrapping_add(last), &commit);
        proof {
            assert(cc[n + 1] == DeviceCall::Write(j.journal_start.wrapping_add(slots@[n + 1]), commit@));
            assert(self.calls@ =~= c0 + cc.take(n + 2));
        }
        if let Err(e) = w {
            return Err(e);
        }
        let mut k: usize = 0;
        while k < trans.blocks.len() && k < trans.data.len()
            invariant
                self.geometry == old(self).geometry,
                self.readonly == old(self).readonly,
                *j == *old(j),
                commit_settled(old(self).geometry.block_size, old(self).readonly) is None,
                n == trans.data@.len(),
                cc.len() == n + home + 3,
                cc == commit_calls(
                    old(j).journal_start,
                    old(j).head,
                    old(j).journal_length,
                    trans.tid,
                    trans.blocks@,
                    transaction_data(trans),
                    old(self).geometry.block_size,
                ),
                home == (if trans.blocks@.len() < n { trans.blocks@.len() as int } else { n }),
                k <= home,
                c0 == old(self).calls@,
                self.calls@ == c0 + cc.take(n + 2 + k),
            decreases trans.blocks.len() - k,
        {
            let w = self.write_block(trans.blocks[k], &trans.data[k]);
            proof {
                assert(transaction_data(trans)[k as int] == trans.data@[k as int]@);
                assert(cc[n + 2 + k] == DeviceCall::Write(trans.blocks@[k as int], trans.data@[k as int]@));
                assert(self.calls@ =~= c0 + cc.take(n + 2 + k + 1));
                assert(k < home);
                assert(0 <= n + 2 + k + 1 <= cc.len());
            }
            if let Err(e) = w {
                return Err(e);
            }
            k = k + 1;
        }
        let w = self.sync_device();
        proof {
            assert(k == home);
            assert(cc[n + 2 + home] == DeviceCall::Sync);
            assert(self.calls@ =~= c0 + cc.take(n + 3 + home));
            assert(cc.take(n + 3 + home) =~= cc);
        }
        if let Err(e) = w {
            return Err(e);
        }
        j.head = (#[verifier::truncate] (last as u32)).wrapping_add(1);
        assert((#[verifier::truncate] (last as u32)) == (last % 0x1_0000_0000) as u32) by (bit_vector);
        Ok(())
    }

    /// Commit the open transaction and flush the device.
    pub fn unmount(self) -> (r: Result<(), Ext4Error>)
        ensures
            self.journal matches Some(j) && j.current_transaction is Some ==> (commit_settled(
                self.geometry.block_size,
                self.readonly,
            ) matches Some(e) ==> r == Err::<(), Ext4Error>(e)),
    {
        let mut fs = self;
        fs.journal_commit()?;
        fs.device.sync()
    }
}

/// A walk over the entries of a directory.
pub struct Ext4DirIterator {
    pub inode: Ext4Inode,
    pub position: u64,
    pub size: u64,
}

/// The fields of the directory record at `off` of block `data`: inode,
/// record length, name length, file type, and the name (cut at the block's
/// end).
pub open spec fn dir_record(data: Seq<u8>, off: int) -> (u32, u16, u8, u8, Seq<u8>) {
    let name_len = data[off + 6];
    let end = if off + 8 + name_len <= data.len() {
        off + 8 + name_len
    } else {
        data.len() as int
    };
    (le32(data, off), crate::ext4::le16(data, off + 4), name_len, data[off + 7], data.subrange(off + 8, end))
}

/// The next used record of directory `dir` (`size` bytes, blocks of `bs`
/// bytes) at or after byte `pos`, with the position past it: holes and
/// records of length zero skip to the next block, records for inode 0 are
/// passed over; `None` at the end, or where a block cannot be mapped or
/// a record header would run past its block.
pub open spec fn dir_walk<D: BlockDevice>(d: &D, dir: Ext4Inode, pos: u64, size: u64, bs: u32) -> Option<
    ((u32, u16, u8, u8, Seq<u8>), u64),
>
    decreases u64::MAX - pos,
{
    if pos >= size || bs == 0 {
        None
    } else {
        let off = pos % (bs as u64);
        let skip = (bs - off) as u64;
        proof {
            assert(off < bs) by (nonlinear_arith)
                requires
                    bs > 0,
                    off == pos % (bs as u64),
            ;
        }
        match block_lookup(d, dir, pos / (bs as u64), bs) {
            Err(_) => None,
            Ok(pb) => if pb == 0 {
                dir_walk(d, dir, pos.saturating_add(skip), size, bs)
            } else if bs - off < 8 {
                None
            } else {
                let rec = dir_record(d.block_data(pb, bs as nat), off as int);
                if rec.1 == 0 {
                    dir_walk(d, dir, pos.saturating_add(skip), size, bs)
                } else if rec.0 != 0 {
                    Some((rec, pos.saturating_add(rec.1 as u64)))
                } else {
                    dir_walk(d, dir, pos.saturating_add(rec.1 as u64), size, bs)
                }
            },
        }
    }
}

impl Ext4DirIterator {
    /// A walk over directory `path` from its start.
    pub fn new<D: BlockDevice>(fs: &Ext4Filesystem<D>, path: &Vec<u8>) -> (r: Result<Ext4DirIterator, Ext4Error>)
        ensures
            skip_slashes(path@, 0) >= path.len() ==> (inode_read_settled(
                fs.geometry,
                fs.group_descs@,
                EXT4_ROOT_INODE,
            ) matches Some(e) ==> r == Err::<Ext4DirIterator, Ext4Error>(e)),
            r matches Ok(it) ==> it.position == 0 && it.size == inode_size(it.inode) && exists|ino: u32|
                #[trigger] walks_to(fs, path@, 0, EXT4_ROOT_INODE, ino) && inode_record(fs, ino) == Some(it.inode),
    {
        let inode_num = fs.lookup_path(path)?;
        let inode = fs.read_inode(inode_num)?;
        let size = inode.size();
        Ok(Ext4DirIterator { inode, position: 0, size })
    }

    /// The next used entry, and advance past it: holes and zero-length
    /// records skip to the next block; `NotFound` at the end.
    pub fn read<D: BlockDevice>(&mut self, fs: &Ext4Filesystem<D>) -> (r: Result<Ext4DirEntry, Ext4Error>)
        ensures
            final(self).inode == old(self).inode,
            final(self).size == old(self).size,
            old(self).position >= old(self).size ==> r == Err::<Ext4DirEntry, Ext4Error>(Ext4Error::NotFound),
            r matches Ok(e) ==> dir_walk(
                &fs.device,
                old(self).inode,
                old(self).position,
                old(self).size,
                fs.geometry.block_size,
            ) == Some(((e.inode, e.rec_len, e.name_len, e.file_type, e.name@), final(self).position)),
    {
        let bs = fs.geometry.block_size;
        if self.position >= self.size {
            return Err(Ext4Error::NotFound);
        }
        let mut buffer = alloc_block(bs)?;
        while self.position < self.size
            invariant
                self.inode == old(self).inode,
                self.size == old(self).size,
                self.position >= old(self).position,
                bs == fs.geometry.block_size,
                0 < bs <= HEAP_LIMIT,
                buffer.len() == bs,
                dir_walk(&fs.device, self.inode, self.position, self.size, bs) == dir_walk(
                    &fs.device,
                    old(self).inode,
                    old(self).position,
                    old(self).size,
                    bs,
                ),
            decreases u64::MAX - self.position,
        {
            let logical_block = self.position / bs as u64;
            let block_offset = self.position % bs as u64;
            assert(block_offset < bs) by (nonlinear_arith)
                requires
                    bs > 0,
                    block_offset == self.position % (bs as u64),
            ;
            let skip = bs as u64 - block_offset;
            let physical_block = fs.get_block(&self.inode, logical_block)?;
            if physical_block == 0 {
                self.position = self.position.saturating_add(skip);
                continue;
            }
            fs.device.read_block(physical_block, &mut buffer)?;
            let off = block_offset as usize;
            if bs as usize - off < 8 {
                return Err(Ext4Error::Invalid);
            }
            let ino = read_le32(&buffer, off);
            let rec_len = crate::ext4::read_le16(&buffer, off + 4);
            let name_len = buffer[off + 6];
            let file_type = buffer[off + 7];
            if rec_len == 0 {
                self.position = self.position.saturating_add(skip);
                continue;
            }
            self.position = self.position.saturating_add(rec_len as u64);
            if ino != 0 {
                let mut name: Vec<u8> = Vec::new();
                let mut k: usize = 0;
                while k < name_len as usize && off + 8 + k < buffer.len()
                    invariant
                        k <= name_len,
                        off + 8 <= buffer.len(),
                        off + 8 + k <= buffer.len(),
                        buffer.len() <= HEAP_LIMIT,
                        name@ == buffer@.subrange(off + 8, off + 8 + k),
                    decreases name_len - k,
                {
                    name.push(buffer[off + 8 + k]);
                    k = k + 1;
                }
                return Ok(Ext4DirEntry { inode: ino, rec_len, name_len, file_type, name });
            }
        }
        Err(Ext4Error::NotFound)
    }
}

} // verus!
