//! Request handling of the small servers: the VFS's block requests to the drive
//! server, and the node server's code translation and driver loading. Each handler
//! makes its calls through the caller, in the steps given here.
use vstd::prelude::*;

verus! {

/// Domain of the drive server.
pub const SEXDRIVES_PD: u32 = 200;
/// VFS command: read.
pub const FS_READ: u32 = 1;
/// VFS command: write.
pub const FS_WRITE: u32 = 2;
/// Entry point of translated code.
pub const TRANSLATED_ENTRY: u64 = 0x4000_1000;

/// A DMA request to the drive server.
#[derive(Debug, Clone, Copy, PartialEq, Eq, Structural)]
pub struct DmaCall {
    pub command: u32,
    pub offset: u64,
    pub size: u64,
    pub buffer_cap: u32,
    pub device_cap: u32,
}

/// The DMA call a VFS request becomes: reads and writes go to the drive server;
/// other commands are refused.
pub fn handle_vfs_request(cmd: u32, offset: u64, size: u64, buffer_cap: u32) -> (r: Option<DmaCall>)
    ensures
        (cmd == FS_READ || cmd == FS_WRITE) ==> r == Some(DmaCall { command: cmd, offset, size, buffer_cap, device_cap: 0 }),
        !(cmd == FS_READ || cmd == FS_WRITE) ==> r is None,
{
    if cmd == FS_READ || cmd == FS_WRITE {
        Some(DmaCall { command: cmd, offset, size, buffer_cap, device_cap: 0 })
    } else {
        None
    }
}

/// The reply to a VFS request: refused commands answer (-1, 0); otherwise the
/// drive server's DMA status with the request's size, or (-1, 0) when its answer
/// was not a DMA reply (`None`).
pub fn vfs_reply(call: Option<DmaCall>, dma_status: Option<i64>) -> (r: (i64, u64))
    ensures
        r == (match (call, dma_status) {
            (Some(c), Some(s)) => (s, c.size),
            _ => (-1i64, 0u64),
        }),
{
    match (call, dma_status) {
        (Some(c), Some(s)) => (s, c.size),
        _ => (-1, 0),
    }
}

/// The reply to a translation request once the compiler ran: command 1 translates
/// (an unsigned answer never signals failure) and answers the native entry point;
/// other commands are refused.
pub fn handle_translation(cmd: u32, build_res: u64) -> (r: (i64, u64))
    ensures
        cmd == 1 ==> r == (0i64, TRANSLATED_ENTRY),
        cmd != 1 ==> r == (-1i64, 0u64),
{
    if cmd == 1 {
        (0, TRANSLATED_ENTRY)
    } else {
        (-1, 0)
    }
}

/// The reply to a driver-load request once the driver's domain was spawned as
/// `pd_id`: command 1 loads and answers the domain (its low 32 bits); other commands
/// are refused.
pub fn handle_driver_load(cmd: u32, pd_id: u64) -> (r: (i64, u32))
    ensures
        cmd == 1 ==> r == (0i64, pd_id as u32),
        cmd != 1 ==> r == (-1i64, 0u32),
{
    if cmd == 1 {
        (0, pd_id as u32)
    } else {
        (-1, 0)
    }
}

} // verus!
