//! The handlers of the syscalls. A handler works on the task that owns the CPU. What a
//! file or the file system has to do on behalf of a syscall is done by the caller: the
//! handler checks the request and hands back what is to be done.

pub mod fs;
pub mod process;
