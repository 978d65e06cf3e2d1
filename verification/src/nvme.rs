//! The tranny driver registry: NVMe submission-queue entries for block commands and
//! the rotation of the queue's tail.
use vstd::prelude::*;

verus! {

/// How a driver runs.
#[derive(Debug, Clone, Copy, PartialEq, Eq, Structural)]
pub enum DriverType {
    Native,
    Dde,
}

/// Entries in the submission queue.
pub const SQ_ENTRIES: u16 = 32;
/// Offset of the submission queue from the controller's registers.
pub const SQ_OFFSET: u64 = 0x2000;
/// Offset of the submission-queue tail doorbell.
pub const SQ_DOORBELL_OFFSET: u64 = 0x1008;
/// Bytes in a submission-queue entry.
pub const SQ_ENTRY_BYTES: u64 = 64;
/// NVMe opcode of a write.
pub const NVME_WRITE: u32 = 0x01;
/// NVMe opcode of a read.
pub const NVME_READ: u32 = 0x02;

/// The register writes that submit one command: the entry's words (by index in
/// 32-bit words) and the doorbell.
#[derive(Debug, Clone, Copy, PartialEq, Eq, Structural)]
pub struct Submission {
    /// Address of the entry.
    pub entry_addr: u64,
    pub opcode: u32,
    pub namespace: u32,
    pub prp_lo: u32,
    pub prp_hi: u32,
    pub lba_lo: u32,
    pub lba_hi: u32,
    /// Number of 512-byte blocks, less one.
    pub blocks_minus_one: u32,
    pub doorbell_addr: u64,
    pub doorbell_value: u32,
}

/// The NVMe controller's registers and the submission queue's tail.
pub struct DriverRegistry {
    nvme_bar: u64,
    sq_tail: u16,
}

/// The submission of a command at tail `tail`.
pub open spec fn submission_at(bar: u64, tail: u16, cmd: u32, lba: u64, size: u64, phys: u64) -> Submission {
    Submission {
        entry_addr: (bar + SQ_OFFSET + tail * SQ_ENTRY_BYTES) as u64,
        opcode: if cmd == 1 { NVME_READ } else { NVME_WRITE },
        namespace: 1,
        prp_lo: (phys % 0x1_0000_0000) as u32,
        prp_hi: (phys / 0x1_0000_0000) as u32,
        lba_lo: (lba % 0x1_0000_0000) as u32,
        lba_hi: (lba / 0x1_0000_0000) as u32,
        blocks_minus_one: ((size / 512 - 1) % 0x1_0000_0000) as u32,
        doorbell_addr: (bar + SQ_DOORBELL_OFFSET) as u64,
        doorbell_value: (tail + 1) as u32,
    }
}

impl DriverRegistry {
    pub closed spec fn bar(&self) -> u64 {
        self.nvme_bar
    }

    pub closed spec fn tail(&self) -> u16 {
        self.sq_tail
    }

    /// The tail stays inside the queue, and the queue's registers are addressable.
    pub open spec fn wf(&self) -> bool {
        &&& self.tail() < SQ_ENTRIES
        &&& self.bar() + SQ_OFFSET + SQ_ENTRIES * SQ_ENTRY_BYTES <= u64::MAX
    }

    /// The registry of the controller whose registers start at `nvme_bar`.
    pub fn new(nvme_bar: u64) -> (r: Self)
        requires
            nvme_bar + SQ_OFFSET + SQ_ENTRIES * SQ_ENTRY_BYTES <= u64::MAX,
        ensures
            r.wf(),
            r.bar() == nvme_bar,
            r.tail() == 0,
    {
        DriverRegistry { nvme_bar, sq_tail: 0 }
    }

    /// Submits a block command (`cmd` 1 reads, anything else writes) of `size` bytes
    /// at `lba` through the buffer at `phys_addr`: -1 when no buffer was allocated
    /// (address 0); else the register writes to make, the tail moving on by one.
    pub fn dispatch(&mut self, cmd: u32, lba: u64, size: u64, phys_addr: u64) -> (r: (i64, Option<Submission>))
        requires
            old(self).wf(),
            phys_addr != 0 ==> size >= 512,
        ensures
            final(self).wf(),
            final(self).bar() == old(self).bar(),
            phys_addr == 0 ==> r == (-1i64, None::<Submission>) && final(self).tail() == old(self).tail(),
            phys_addr != 0 ==> r == (0i64, Some(submission_at(old(self).bar(), old(self).tail(), cmd, lba, size, phys_addr)))
                && final(self).tail() == (old(self).tail() + 1) % (SQ_ENTRIES as int),
    {
        if phys_addr == 0 {
            return (-1, None);
        }
        let tail = self.sq_tail;
        let entry_addr = self.nvme_bar + SQ_OFFSET + (tail as u64) * SQ_ENTRY_BYTES;
        let opcode: u32 = if cmd == 1 {
            NVME_READ
        } else {
            NVME_WRITE
        };
        let blocks = size / 512 - 1;
        let s = Submission {
            entry_addr,
            opcode,
            namespace: 1,
            prp_lo: (phys_addr % 0x1_0000_0000) as u32,
            prp_hi: (phys_addr / 0x1_0000_0000) as u32,
            lba_lo: (lba % 0x1_0000_0000) as u32,
            lba_hi: (lba / 0x1_0000_0000) as u32,
            blocks_minus_one: (blocks % 0x1_0000_0000) as u32,
            doorbell_addr: self.nvme_bar + SQ_DOORBELL_OFFSET,
            doorbell_value: (tail as u32) + 1,
        };
        self.sq_tail = (tail + 1) % SQ_ENTRIES;
        (0, Some(s))
    }

    /// Completion interrupts need no work yet.
    pub fn handle_irq(&self, vector: u8) {
    }
}

} // verus!
