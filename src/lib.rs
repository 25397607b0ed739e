//! Core logic of a small RISC-V kernel: the cooperative task queue, the
//! process model and its system calls, the user-memory access core, the
//! dentry cache, the network buffer pool and the interrupt router.
pub mod dentry;
pub mod error;
pub mod executor;
pub mod manager;
pub mod mm;
pub mod net;
pub mod node;
pub mod process;
pub mod task;
pub mod user_ptr;
