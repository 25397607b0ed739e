//! Error codes of the kernel core and of the device layer.
use vstd::prelude::*;

verus! {

/// The POSIX error numbers that the kernel core reports to user space.
#[derive(Debug, Clone, Copy, PartialEq, Eq, Structural)]
pub enum SysError {
    EPERM,
    ENOENT,
    ESRCH,
    EIO,
    ECHILD,
    EAGAIN,
    ENOMEM,
    EFAULT,
    EEXIST,
    ENOTDIR,
    EINVAL,
}

/// The errno value of each error.
pub open spec fn errno_of(e: SysError) -> int {
    match e {
        SysError::EPERM => 1,
        SysError::ENOENT => 2,
        SysError::ESRCH => 3,
        SysError::EIO => 5,
        SysError::ECHILD => 10,
        SysError::EAGAIN => 11,
        SysError::ENOMEM => 12,
        SysError::EFAULT => 14,
        SysError::EEXIST => 17,
        SysError::ENOTDIR => 20,
        SysError::EINVAL => 22,
    }
}

impl SysError {
    /// The errno value of this error.
    pub fn code(self) -> (r: i64)
        ensures
            r == errno_of(self),
    {
        match self {
            SysError::EPERM => 1,
            SysError::ENOENT => 2,
            SysError::ESRCH => 3,
            SysError::EIO => 5,
            SysError::ECHILD => 10,
            SysError::EAGAIN => 11,
            SysError::ENOMEM => 12,
            SysError::EFAULT => 14,
            SysError::EEXIST => 17,
            SysError::ENOTDIR => 20,
            SysError::EINVAL => 22,
        }
    }
}

/// Result of a kernel-core operation.
pub type SysResult<T> = Result<T, SysError>;

/// Result of a system call: the value returned in `a0`, or an error.
pub type SyscallResult = Result<usize, SysError>;

/// The value that user space sees in `a0` for a system call result.
pub open spec fn syscall_ret_spec(r: SyscallResult) -> int {
    match r {
        Ok(v) => (v as i64) as int,
        Err(e) => -errno_of(e),
    }
}

/// Encodes a system call result as the register value returned to user
/// space: the value itself, or the errno negated.
pub fn syscall_ret(r: SyscallResult) -> (v: i64)
    ensures
        v == syscall_ret_spec(r),
{
    match r {
        Ok(v) => v as i64,
        Err(e) => -e.code(),
    }
}

/// Errors of the device layer.
#[derive(Debug, Clone, Copy, PartialEq, Eq, Structural)]
pub enum DevError {
    /// Try again, for non-blocking operations.
    Again,
    /// An entity already exists.
    AlreadyExists,
    /// Bad internal state.
    BadState,
    /// Invalid parameter or argument.
    InvalidParam,
    /// Input or output error.
    IO,
    /// Not enough space or cannot allocate memory.
    NoMemory,
    /// Device or resource is busy.
    ResourceBusy,
    /// This operation is unsupported or unimplemented.
    Unsupported,
}

/// Result of a device-layer operation.
pub type DevResult<T = ()> = Result<T, DevError>;

} // verus!
