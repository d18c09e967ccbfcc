//! ATA PIO sector transfers for the ext4 block callbacks: which LBA and how
//! many sectors a block request covers, the register writes that start a
//! one-sector command in 28-bit or 48-bit LBA mode, and how the status
//! register is read while waiting.
use vstd::prelude::*;

verus! {

pub const ATA_PRIMARY_DATA: u16 = 0x1F0;
pub const ATA_PRIMARY_ERROR: u16 = 0x1F1;
pub const ATA_PRIMARY_SECCOUNT: u16 = 0x1F2;
pub const ATA_PRIMARY_LBA_LO: u16 = 0x1F3;
pub const ATA_PRIMARY_LBA_MID: u16 = 0x1F4;
pub const ATA_PRIMARY_LBA_HI: u16 = 0x1F5;
pub const ATA_PRIMARY_DRIVE: u16 = 0x1F6;
pub const ATA_PRIMARY_STATUS: u16 = 0x1F7;
pub const ATA_PRIMARY_CMD: u16 = 0x1F7;

pub const ATA_STATUS_ERR: u8 = 0x01;
pub const ATA_STATUS_DRQ: u8 = 0x08;
pub const ATA_STATUS_RDY: u8 = 0x40;
pub const ATA_STATUS_BSY: u8 = 0x80;

pub const ATA_CMD_READ_SECTORS: u8 = 0x20;
pub const ATA_CMD_READ_SECTORS_EXT: u8 = 0x24;
pub const ATA_CMD_WRITE_SECTORS: u8 = 0x30;
pub const ATA_CMD_WRITE_SECTORS_EXT: u8 = 0x34;
pub const ATA_CMD_FLUSH_CACHE: u8 = 0xE7;
pub const ATA_CMD_FLUSH_CACHE_EXT: u8 = 0xEA;

/// Default start of the ext4 partition, in 512-byte sectors.
pub const EXT4_PARTITION_LBA: u64 = 2048;

/// Highest sector 28-bit addressing reaches.
pub const LBA28_MAX: u64 = 0x0FFF_FFFF;

/// Highest sector 48-bit addressing reaches.
pub const LBA48_MAX: u64 = 0x0000_FFFF_FFFF_FFFF;

/// Number of polls before a wait gives up.
pub const ATA_WAIT_POLLS: u32 = 100000;

/// The disk the ext4 callbacks read: a partition starting at
/// `partition_lba`.
#[derive(Clone, Copy, Debug)]
pub struct Ext4AtaDevice {
    pub partition_lba: u64,
}

impl Ext4AtaDevice {
    /// The default partition.
    pub fn new() -> (r: Ext4AtaDevice)
        ensures
            r.partition_lba == EXT4_PARTITION_LBA,
    {
        Ext4AtaDevice { partition_lba: EXT4_PARTITION_LBA }
    }
}

/// The first sector and the sector count of block `block` of `len` bytes
/// on `device`; `None` for an empty length or one that is not whole
/// sectors.
pub fn block_request(device: &Ext4AtaDevice, block: u64, len: usize) -> (r: Option<(u64, u32)>)
    requires
        len / 512 <= u32::MAX,
        device.partition_lba + block * (len / 512) <= u64::MAX,
    ensures
        len == 0 || len % 512 != 0 ==> r is None,
        len != 0 && len % 512 == 0 ==> r == Some(
            ((device.partition_lba + block * (len / 512)) as u64, (len / 512) as u32),
        ),
{
    if len == 0 || len % 512 != 0 {
        return None;
    }
    let sectors = (len / 512) as u32;
    assert(block * sectors <= u64::MAX) by (nonlinear_arith)
        requires
            device.partition_lba + block * sectors <= u64::MAX,
    ;
    Some((device.partition_lba + block * (sectors as u64), sectors))
}

/// Whether sector `lba` needs 48-bit addressing.
pub fn use_lba48(lba: u64) -> (r: bool)
    ensures
        r == (lba > LBA28_MAX),
{
    lba > LBA28_MAX
}

/// A byte written to an I/O port.
#[derive(Clone, Copy, Debug, PartialEq, Eq, Structural)]
pub struct PortWrite {
    pub port: u16,
    pub value: u8,
}

/// The register writes that start a one-sector 28-bit command `cmd` at
/// sector `lba`: drive select with LBA bits 24-27, count 1, LBA bytes 0-2,
/// the command.
pub open spec fn lba28_writes(lba: u64, cmd: u8) -> Seq<PortWrite> {
    seq![
        PortWrite { port: ATA_PRIMARY_DRIVE, value: (0xE0u8 | ((lba >> 24u64) & 0x0F) as u8) },
        PortWrite { port: ATA_PRIMARY_SECCOUNT, value: 1 },
        PortWrite { port: ATA_PRIMARY_LBA_LO, value: (lba & 0xFF) as u8 },
        PortWrite { port: ATA_PRIMARY_LBA_MID, value: ((lba >> 8u64) & 0xFF) as u8 },
        PortWrite { port: ATA_PRIMARY_LBA_HI, value: ((lba >> 16u64) & 0xFF) as u8 },
        PortWrite { port: ATA_PRIMARY_CMD, value: cmd },
    ]
}

/// The register writes that start a one-sector 48-bit command `cmd` at
/// sector `lba`: drive select, the high count and LBA bytes 3-5, then the
/// low count and LBA bytes 0-2, the command.
pub open spec fn lba48_writes(lba: u64, cmd: u8) -> Seq<PortWrite> {
    seq![
        PortWrite { port: ATA_PRIMARY_DRIVE, value: 0xE0 },
        PortWrite { port: ATA_PRIMARY_SECCOUNT, value: 0 },
        PortWrite { port: ATA_PRIMARY_LBA_LO, value: ((lba >> 24u64) & 0xFF) as u8 },
        PortWrite { port: ATA_PRIMARY_LBA_MID, value: ((lba >> 32u64) & 0xFF) as u8 },
        PortWrite { port: ATA_PRIMARY_LBA_HI, value: ((lba >> 40u64) & 0xFF) as u8 },
        PortWrite { port: ATA_PRIMARY_SECCOUNT, value: 1 },
        PortWrite { port: ATA_PRIMARY_LBA_LO, value: (lba & 0xFF) as u8 },
        PortWrite { port: ATA_PRIMARY_LBA_MID, value: ((lba >> 8u64) & 0xFF) as u8 },
        PortWrite { port: ATA_PRIMARY_LBA_HI, value: ((lba >> 16u64) & 0xFF) as u8 },
        PortWrite { port: ATA_PRIMARY_CMD, value: cmd },
    ]
}

/// The register writes that start a one-sector read (or write, `write`)
/// at sector `lba`, in 48-bit mode (`lba48`) or 28-bit mode.
pub open spec fn command_writes(lba: u64, lba48: bool, write: bool) -> Seq<PortWrite> {
    if lba48 {
        lba48_writes(lba, if write { ATA_CMD_WRITE_SECTORS_EXT } else { ATA_CMD_READ_SECTORS_EXT })
    } else {
        lba28_writes(lba, if write { ATA_CMD_WRITE_SECTORS } else { ATA_CMD_READ_SECTORS })
    }
}

/// The register writes that start a one-sector read (or write, `write`)
/// at sector `lba`, in 48-bit mode (`lba48`) or 28-bit mode.
pub fn sector_command(lba: u64, lba48: bool, write: bool) -> (r: Vec<PortWrite>)
    ensures
        r@ == command_writes(lba, lba48, write),
{
    let mut w: Vec<PortWrite> = Vec::new();
    if lba48 {
        let cmd = if write {
            ATA_CMD_WRITE_SECTORS_EXT
        } else {
            ATA_CMD_READ_SECTORS_EXT
        };
        w.push(PortWrite { port: ATA_PRIMARY_DRIVE, value: 0xE0 });
        w.push(PortWrite { port: ATA_PRIMARY_SECCOUNT, value: 0 });
        w.push(PortWrite { port: ATA_PRIMARY_LBA_LO, value: ((lba >> 24u64) & 0xFF) as u8 });
        w.push(PortWrite { port: ATA_PRIMARY_LBA_MID, value: ((lba >> 32u64) & 0xFF) as u8 });
        w.push(PortWrite { port: ATA_PRIMARY_LBA_HI, value: ((lba >> 40u64) & 0xFF) as u8 });
        w.push(PortWrite { port: ATA_PRIMARY_SECCOUNT, value: 1 });
        w.push(PortWrite { port: ATA_PRIMARY_LBA_LO, value: (lba & 0xFF) as u8 });
        w.push(PortWrite { port: ATA_PRIMARY_LBA_MID, value: ((lba >> 8u64) & 0xFF) as u8 });
        w.push(PortWrite { port: ATA_PRIMARY_LBA_HI, value: ((lba >> 16u64) & 0xFF) as u8 });
        w.push(PortWrite { port: ATA_PRIMARY_CMD, value: cmd });
        assert(w@ =~= lba48_writes(lba, cmd));
    } else {
        let cmd = if write {
            ATA_CMD_WRITE_SECTORS
        } else {
            ATA_CMD_READ_SECTORS
        };
        w.push(PortWrite { port: ATA_PRIMARY_DRIVE, value: 0xE0u8 | ((lba >> 24u64) & 0x0F) as u8 });
        w.push(PortWrite { port: ATA_PRIMARY_SECCOUNT, value: 1 });
        w.push(PortWrite { port: ATA_PRIMARY_LBA_LO, value: (lba & 0xFF) as u8 });
        w.push(PortWrite { port: ATA_PRIMARY_LBA_MID, value: ((lba >> 8u64) & 0xFF) as u8 });
        w.push(PortWrite { port: ATA_PRIMARY_LBA_HI, value: ((lba >> 16u64) & 0xFF) as u8 });
        w.push(PortWrite { port: ATA_PRIMARY_CMD, value: cmd });
        assert(w@ =~= lba28_writes(lba, cmd));
    }
    w
}

/// Where a transfer or flush stands.
#[derive(Clone, Copy, Debug, PartialEq, Eq, Structural)]
pub enum AtaPhase {
    /// Polling until the drive is ready for the next command.
    WaitReady,
    /// Polling until the drive asks for (or offers) a sector's data.
    WaitData,
    /// The data of the current sector is being moved.
    MoveData,
    /// Polling until the drive is ready after the flush command.
    WaitFlushed,
    /// Over.
    Finished,
}

/// What the driver does next for a transfer or flush.
#[derive(Clone, Copy, Debug, PartialEq, Eq, Structural)]
pub enum AtaAction {
    /// Read the status register and report it with `on_status`.
    ReadStatus,
    /// Make the register writes `command` gives, then read the status
    /// register and report it with `on_status`.
    IssueCommand,
    /// Move the 256 words of sector `index` of the transfer through the data
    /// register (into the buffer for a read, out of it for a write), then
    /// report it with `on_data_moved`.
    MoveSector(u32),
    /// The operation is over: whether it succeeded.
    Finish(bool),
}

/// A multi-sector PIO transfer of the primary drive (one command per
/// sector), or a cache flush (no sectors), each wait polling the status
/// register at most `ATA_WAIT_POLLS` times. `lba48` says whether the
/// transfer starts past sector 0x0FFFFFFF (for a flush: whether the 48-bit
/// flush command is used).
#[derive(Clone, Copy, Debug, PartialEq, Eq, Structural)]
pub struct AtaTransfer {
    pub lba: u64,
    pub count: u32,
    pub write: bool,
    pub lba48: bool,
    pub sector: u32,
    pub phase: AtaPhase,
    pub polls: u32,
    pub succeeded: bool,
}

/// The action a transfer in state `t` is waiting on.
pub open spec fn pending(t: AtaTransfer) -> AtaAction {
    match t.phase {
        AtaPhase::MoveData => AtaAction::MoveSector(t.sector),
        AtaPhase::Finished => AtaAction::Finish(t.succeeded),
        _ => AtaAction::ReadStatus,
    }
}

/// The sector the transfer `t` is at.
pub open spec fn current_lba(t: AtaTransfer) -> u64 {
    t.lba.wrapping_add(t.sector as u64)
}

/// `t` over, with outcome `ok`.
pub open spec fn finished(t: AtaTransfer, ok: bool) -> AtaTransfer {
    AtaTransfer { phase: AtaPhase::Finished, succeeded: ok, ..t }
}

/// `t` in phase `p` with a fresh poll budget.
pub open spec fn entering(t: AtaTransfer, p: AtaPhase) -> AtaTransfer {
    AtaTransfer { phase: p, polls: ATA_WAIT_POLLS, ..t }
}

/// The state and action after `t` reads `status`. Each read uses up a
/// poll. Waiting for readiness, an error fails; busy, or not yet ready,
/// polls again; readiness issues the command (the sector's, or the flush),
/// or, after the flush command, ends in success. Waiting for data, busy
/// polls again, an error fails, and a data request moves the sector. A wait
/// that would poll again with no poll left fails. Outside a wait nothing
/// changes.
pub open spec fn status_next(t: AtaTransfer, status: u8) -> (AtaTransfer, AtaAction) {
    let left = if t.polls > 0 {
        (t.polls - 1) as u32
    } else {
        0u32
    };
    let again = if left == 0 {
        (finished(t, false), AtaAction::Finish(false))
    } else {
        (AtaTransfer { polls: left, ..t }, AtaAction::ReadStatus)
    };
    match t.phase {
        AtaPhase::WaitReady | AtaPhase::WaitFlushed => if status & ATA_STATUS_ERR != 0 {
            (finished(t, false), AtaAction::Finish(false))
        } else if status & ATA_STATUS_BSY != 0 || status & ATA_STATUS_RDY == 0 {
            again
        } else if t.phase == AtaPhase::WaitFlushed {
            (finished(t, true), AtaAction::Finish(true))
        } else if t.count == 0 {
            (entering(t, AtaPhase::WaitFlushed), AtaAction::IssueCommand)
        } else {
            (entering(t, AtaPhase::WaitData), AtaAction::IssueCommand)
        },
        AtaPhase::WaitData => if status & ATA_STATUS_BSY != 0 {
            again
        } else if status & ATA_STATUS_ERR != 0 {
            (finished(t, false), AtaAction::Finish(false))
        } else if status & ATA_STATUS_DRQ != 0 {
            (AtaTransfer { phase: AtaPhase::MoveData, ..t }, AtaAction::MoveSector(t.sector))
        } else {
            again
        },
        _ => (t, pending(t)),
    }
}

impl AtaTransfer {
    /// Start a transfer of `count` sectors at `lba` (a write when `write`;
    /// each sector past sector 0x0FFFFFFF is sent in 48-bit mode): nothing
    /// to do for no sectors; a transfer starting past sector 0x0FFFFFFF
    /// that starts past sector 2^48 - 1 or has more than 0xFFFF sectors
    /// fails at once; else wait for the drive.
    pub fn begin(lba: u64, count: u32, write: bool) -> (r: (AtaTransfer, AtaAction))
        ensures
            r.0.lba == lba && r.0.count == count && r.0.write == write && r.0.lba48 == (lba > LBA28_MAX),
            r.0.sector == 0,
            r.1 == pending(r.0),
            count == 0 ==> r.0.phase == AtaPhase::Finished && r.0.succeeded,
            count != 0 && lba > LBA28_MAX && (lba > LBA48_MAX || count > 0xFFFF) ==> r.0.phase
                == AtaPhase::Finished && !r.0.succeeded,
            count != 0 && (lba <= LBA28_MAX || (lba <= LBA48_MAX && count <= 0xFFFF)) ==> r.0.phase
                == AtaPhase::WaitReady && r.0.polls == ATA_WAIT_POLLS,
    {
        let lba48 = lba > LBA28_MAX;
        let t = AtaTransfer {
            lba,
            count,
            write,
            lba48,
            sector: 0,
            phase: AtaPhase::Finished,
            polls: 0,
            succeeded: true,
        };
        if count == 0 {
            return (t, AtaAction::Finish(true));
        }
        if lba48 && (lba > LBA48_MAX || count > 0xFFFF) {
            return (AtaTransfer { succeeded: false, ..t }, AtaAction::Finish(false));
        }
        (AtaTransfer { phase: AtaPhase::WaitReady, polls: ATA_WAIT_POLLS, ..t }, AtaAction::ReadStatus)
    }

    /// Start a cache flush (the 48-bit command when `lba48`): wait for the
    /// drive.
    pub fn begin_flush(lba48: bool) -> (r: (AtaTransfer, AtaAction))
        ensures
            r.0 == (AtaTransfer {
                lba: 0,
                count: 0,
                write: false,
                lba48,
                sector: 0,
                phase: AtaPhase::WaitReady,
                polls: ATA_WAIT_POLLS,
                succeeded: false,
            }),
            r.1 == AtaAction::ReadStatus,
    {
        (
            AtaTransfer {
                lba: 0,
                count: 0,
                write: false,
                lba48,
                sector: 0,
                phase: AtaPhase::WaitReady,
                polls: ATA_WAIT_POLLS,
                succeeded: false,
            },
            AtaAction::ReadStatus,
        )
    }

    /// The register writes `IssueCommand` asks for: the flush command for a
    /// flush, else the command of the current sector, in 48-bit mode when
    /// that sector is past sector 0x0FFFFFFF.
    pub fn command(&self) -> (r: Vec<PortWrite>)
        ensures
            self.count == 0 ==> r@ == seq![
                PortWrite {
                    port: ATA_PRIMARY_CMD,
                    value: if self.lba48 { ATA_CMD_FLUSH_CACHE_EXT } else { ATA_CMD_FLUSH_CACHE },
                },
            ],
            self.count != 0 ==> r@ == command_writes(
                current_lba(*self),
                current_lba(*self) > LBA28_MAX,
                self.write,
            ),
    {
        if self.count == 0 {
            let mut w: Vec<PortWrite> = Vec::new();
            let cmd = if self.lba48 {
                ATA_CMD_FLUSH_CACHE_EXT
            } else {
                ATA_CMD_FLUSH_CACHE
            };
            w.push(PortWrite { port: ATA_PRIMARY_CMD, value: cmd });
            assert(w@ =~= seq![PortWrite { port: ATA_PRIMARY_CMD, value: cmd }]);
            w
        } else {
            let cur = self.lba.wrapping_add(self.sector as u64);
            sector_command(cur, cur > LBA28_MAX, self.write)
        }
    }

    /// Report the status register's value `status` (see `status_next`).
    pub fn on_status(&mut self, status: u8) -> (r: AtaAction)
        ensures
            (*final(self), r) == status_next(*old(self), status),
    {
        let left: u32 = if self.polls > 0 {
            self.polls - 1
        } else {
            0
        };
        match self.phase {
            AtaPhase::WaitReady | AtaPhase::WaitFlushed => {
                if status & ATA_STATUS_ERR != 0 {
                    self.phase = AtaPhase::Finished;
                    self.succeeded = false;
                    AtaAction::Finish(false)
                } else if status & ATA_STATUS_BSY != 0 || status & ATA_STATUS_RDY == 0 {
                    self.poll_again(left)
                } else if self.phase == AtaPhase::WaitFlushed {
                    self.phase = AtaPhase::Finished;
                    self.succeeded = true;
                    AtaAction::Finish(true)
                } else if self.count == 0 {
                    self.phase = AtaPhase::WaitFlushed;
                    self.polls = ATA_WAIT_POLLS;
                    AtaAction::IssueCommand
                } else {
                    self.phase = AtaPhase::WaitData;
                    self.polls = ATA_WAIT_POLLS;
                    AtaAction::IssueCommand
                }
            },
            AtaPhase::WaitData => {
                if status & ATA_STATUS_BSY != 0 {
                    self.poll_again(left)
                } else if status & ATA_STATUS_ERR != 0 {
                    self.phase = AtaPhase::Finished;
                    self.succeeded = false;
                    AtaAction::Finish(false)
                } else if status & ATA_STATUS_DRQ != 0 {
                    self.phase = AtaPhase::MoveData;
                    AtaAction::MoveSector(self.sector)
                } else {
                    self.poll_again(left)
                }
            },
            AtaPhase::MoveData => AtaAction::MoveSector(self.sector),
            AtaPhase::Finished => AtaAction::Finish(self.succeeded),
        }
    }

    /// Poll again with `left` polls, or fail with none left.
    fn poll_again(&mut self, left: u32) -> (r: AtaAction)
        ensures
            left == 0 ==> *final(self) == finished(*old(self), false) && r == AtaAction::Finish(false),
            left != 0 ==> *final(self) == (AtaTransfer { polls: left, ..*old(self) }) && r == AtaAction::ReadStatus,
    {
        if left == 0 {
            self.phase = AtaPhase::Finished;
            self.succeeded = false;
            AtaAction::Finish(false)
        } else {
            self.polls = left;
            AtaAction::ReadStatus
        }
    }

    /// Report that the current sector's data has moved: the transfer ends
    /// in success after its last sector, or waits for the drive to take the
    /// next command. Outside the data phase nothing changes.
    pub fn on_data_moved(&mut self) -> (r: AtaAction)
        ensures
            old(self).phase != AtaPhase::MoveData ==> *final(self) == *old(self) && r == pending(*old(self)),
            old(self).phase == AtaPhase::MoveData && old(self).sector + 1 >= old(self).count ==> *final(self)
                == finished(AtaTransfer { sector: old(self).count, ..*old(self) }, true) && r == AtaAction::Finish(
                true,
            ),
            old(self).phase == AtaPhase::MoveData && old(self).sector + 1 < old(self).count ==> *final(self)
                == entering(AtaTransfer { sector: (old(self).sector + 1) as u32, ..*old(self) }, AtaPhase::WaitReady)
                && r == AtaAction::ReadStatus,
    {
        if self.phase != AtaPhase::MoveData {
            return match self.phase {
                AtaPhase::Finished => AtaAction::Finish(self.succeeded),
                _ => AtaAction::ReadStatus,
            };
        }
        if self.sector >= self.count || self.count - self.sector <= 1 {
            self.sector = self.count;
            self.phase = AtaPhase::Finished;
            self.succeeded = true;
            AtaAction::Finish(true)
        } else {
            self.sector = self.sector + 1;
            self.phase = AtaPhase::WaitReady;
            self.polls = ATA_WAIT_POLLS;
            AtaAction::ReadStatus
        }
    }
}


/// `t` after `n` reads of a status that only says busy.
pub open spec fn busy_reads(t: AtaTransfer, n: nat) -> AtaTransfer
    decreases n,
{
    if n == 0 {
        t
    } else {
        status_next(busy_reads(t, (n - 1) as nat), ATA_STATUS_BSY).0
    }
}

/// A wait on a drive that stays busy (or is absent and reads as busy) does
/// not hang: with `p` polls left it keeps waiting for `p - 1` reads, and the
/// `p`-th read ends the operation in failure.
pub proof fn lemma_busy_drive_times_out(t: AtaTransfer)
    requires
        t.phase == AtaPhase::WaitReady || t.phase == AtaPhase::WaitData || t.phase == AtaPhase::WaitFlushed,
        t.polls >= 1,
    ensures
        forall|k: nat|
            k < t.polls ==> #[trigger] busy_reads(t, k) == (AtaTransfer { polls: (t.polls - k) as u32, ..t }),
        busy_reads(t, t.polls as nat) == finished(AtaTransfer { polls: 1, ..t }, false),
{
    assert(ATA_STATUS_BSY & ATA_STATUS_ERR == 0 && ATA_STATUS_BSY & ATA_STATUS_BSY != 0) by (bit_vector);
    assert forall|k: nat| k < t.polls implies #[trigger] busy_reads(t, k) == (AtaTransfer {
        polls: (t.polls - k) as u32,
        ..t
    }) by {
        lemma_busy_prefix(t, k);
    }
    lemma_busy_prefix(t, (t.polls - 1) as nat);
}

proof fn lemma_busy_prefix(t: AtaTransfer, k: nat)
    requires
        t.phase == AtaPhase::WaitReady || t.phase == AtaPhase::WaitData || t.phase == AtaPhase::WaitFlushed,
        k < t.polls,
        ATA_STATUS_BSY & ATA_STATUS_ERR == 0,
        ATA_STATUS_BSY & ATA_STATUS_BSY != 0,
    ensures
        busy_reads(t, k) == (AtaTransfer { polls: (t.polls - k) as u32, ..t }),
    decreases k,
{
    if k > 0 {
        lemma_busy_prefix(t, (k - 1) as nat);
    }
}

} // verus!
