//! Process subsystem of a small x86_64 teaching kernel: process table,
//! round-robin scheduling, fork / wait / exit, counted semaphores, user heap
//! growth and lazy stacks, with every operation stated and proved.
//!
//! [`manager`] holds the state and its invariant, [`proc`] the operations
//! that the kernel's entries run, [`syscall`] the dispatcher of the calls
//! that programs make and [`user`] the programs' side of those calls.
//! [`vm`], [`paging`] and [`frame`] keep the address spaces, [`sync`] the
//! semaphores. [`laws`], [`sched`] and [`memory`] state what holds across
//! operations.

pub mod apps;
pub mod boot;
pub mod context;
pub mod frame;
pub mod laws;
pub mod manager;
pub mod memory;
pub mod paging;
pub mod pid;
pub mod proc;
pub mod process;
pub mod queue;
pub mod sched;
pub mod sync;
pub mod syscall;
pub mod table;
pub mod text;
pub mod time;
pub mod user;
pub mod vm;
