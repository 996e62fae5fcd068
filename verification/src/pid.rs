use vstd::prelude::*;

verus! {

/// Identifier of a process: sixteen bits, handed out by a counter that
/// starts at one and only grows.
#[derive(Clone, Copy, Debug, PartialEq, Eq, Structural, Hash, PartialOrd, Ord)]
pub struct ProcessId(pub u16);

/// The raw value of the kernel process's identifier.
pub const KERNEL_PID_VALUE: u16 = 1;

impl ProcessId {
    /// The identifier of the kernel process, which idles and adopts orphans.
    pub open spec fn kernel() -> ProcessId {
        ProcessId(1)
    }

    /// The key under which a process table files this identifier.
    pub open spec fn key(self) -> u64 {
        self.0 as u64
    }
}

/// The identifier of the kernel process.
pub fn kernel_pid() -> (pid: ProcessId)
    ensures
        pid == ProcessId::kernel(),
{
    ProcessId(KERNEL_PID_VALUE)
}

} // verus!
