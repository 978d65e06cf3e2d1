//! The system-call layer's plain values: PDX requests and calls, the error codes of
//! service registration, and the POSIX VFS bridge's call encoding.
use vstd::prelude::*;

verus! {

/// Errors of the system library.
#[derive(Debug, Clone, Copy, PartialEq, Eq, Structural)]
pub enum SysError {
    VfsRegFail,
    Unknown,
}

impl SysError {
    /// The numeric code of the error: 1 for a failed registration, 255 otherwise.
    pub fn code(self) -> (c: u8)
        ensures
            c == (match self {
                SysError::VfsRegFail => 1u8,
                SysError::Unknown => 255u8,
            }),
    {
        match self {
            SysError::VfsRegFail => 1,
            SysError::Unknown => 255,
        }
    }
}

/// A request received by `pdx_listen`.
#[derive(Debug, Clone, Copy, PartialEq, Eq, Structural)]
pub struct PdxRequest {
    pub caller_pd: u32,
    pub num: u64,
    pub arg0: u64,
    pub arg1: u64,
    pub arg2: u64,
}

/// The outcome of registering a service: the kernel's answer 0 is a failure, any
/// other answer the address of the registered service.
pub fn register_result(res: u64) -> (r: Result<u64, SysError>)
    ensures
        res == 0 ==> r == Err::<u64, SysError>(SysError::VfsRegFail),
        res != 0 ==> r == Ok::<u64, SysError>(res),
{
    if res == 0 {
        Err(SysError::VfsRegFail)
    } else {
        Ok(res)
    }
}

/// A `pdx_call`: target domain, operation and two arguments.
#[derive(Debug, Clone, Copy, PartialEq, Eq, Structural)]
pub struct PdxCall {
    pub target_pd: u32,
    pub num: u64,
    pub arg0: u64,
    pub arg1: u64,
}

/// Flag of a zero-copy handover open.
pub const O_HANDOVER: u32 = 0x8000_0000;
/// Domain of the file server.
pub const SEXFILES_PD: u32 = 1;
/// File-server operation: open.
pub const VFS_OPEN: u64 = 1;
/// File-server operation: pre-warm protection keys.
pub const VFS_PREWARM_KEYS: u64 = 7;

/// The call `open` makes for the path at `path_addr` with `flags`: a handover open
/// and a plain one make the same call, and the mode is not passed on.
pub fn open(path_addr: u64, flags: u32, mode: u32) -> (c: PdxCall)
    ensures
        c == (PdxCall { target_pd: SEXFILES_PD, num: VFS_OPEN, arg0: path_addr, arg1: flags as u64 }),
{
    PdxCall { target_pd: SEXFILES_PD, num: VFS_OPEN, arg0: path_addr, arg1: flags as u64 }
}

/// The call `posix_fadvise` makes: a key pre-warming hint for file `fd`; the range
/// is not passed on.
pub fn posix_fadvise(fd: i32, offset: u64, len: u64, advice: i32) -> (c: PdxCall)
    ensures
        c == (PdxCall { target_pd: SEXFILES_PD, num: VFS_PREWARM_KEYS, arg0: fd as u64, arg1: advice as u64 }),
{
    PdxCall { target_pd: SEXFILES_PD, num: VFS_PREWARM_KEYS, arg0: fd as u64, arg1: advice as u64 }
}

/// System call number of `park`.
pub const SYS_PARK: u64 = 24;

/// The system call `park_on_ring` makes: park until an interrupt or a message
/// unparks the domain.
pub fn park_on_ring() -> (n: u64)
    ensures
        n == SYS_PARK,
{
    SYS_PARK
}

/// The answer of a call as the C `int` the POSIX functions return: its low 32 bits.
pub fn reply_as_int(res: u64) -> (r: i32)
    ensures
        r == res as i32,
{
    res as i32
}

} // verus!
