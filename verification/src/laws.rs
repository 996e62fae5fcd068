use vstd::prelude::*;

use crate::context::ProcessContext;
use crate::manager::ProcessManager;
use crate::memory::{lemma_parent_memory_isolated, read, same_outside, Memory};
use crate::pid::ProcessId;
use crate::proc::{fault_done, switch_done, FaultOutcome};
use crate::process::ProgramStatus;
use crate::queue::no_duplicates;
use crate::syscall::{dispatched, Action, Syscall, SyscallArgs, SyscallInput};

verus! {

/// What a call or a timer tick can do to the place of the process `pid`
/// in the table. The counter of identifiers never goes back. A process
/// that is new in the table carries the identifier that the counter stood
/// at. A process that has left the table was dead and collected by the
/// wait call for it, or was killed by this step and left at once because
/// its exit code reached a waiter or nobody was left to collect it.
pub open spec fn lifecycle_kept(
    before: &ProcessManager,
    after: &ProcessManager,
    call: Option<SyscallArgs>,
    pid: ProcessId,
) -> bool {
    &&& after.next_pid >= before.next_pid
    &&& !before.has(pid) && after.has(pid) ==> pid.0 == before.next_pid && after.process(pid).status
        != ProgramStatus::Dead
    &&& before.has(pid) && !after.has(pid) ==> {
        ||| before.process(pid).status == ProgramStatus::Dead && call == Some(
            SyscallArgs { syscall: Syscall::WaitPid, ..call->0 },
        ) && ProcessId(call->0.arg0 as u16) == pid
        ||| before.can_kill(pid) && before.reaped_at_once(pid)
    }
}

/// No process comes back: an identifier that the counter has passed and
/// that the table does not hold is not in the table after a call either.
pub proof fn lemma_call_keeps_lifecycle(
    before: &ProcessManager,
    after: &ProcessManager,
    live_before: ProcessContext,
    live_after: ProcessContext,
    input: &SyscallInput,
    action: Action,
    pid: ProcessId,
)
    requires
        before.wf(),
        dispatched(before, after, live_before, live_after, input, action),
    ensures
        lifecycle_kept(before, after, Some(SyscallArgs::decoded(live_before)), pid),
        pid.0 < before.next_pid && !before.has(pid) ==> !after.has(pid),
{
    let args = SyscallArgs::decoded(live_before);
    match args.syscall {
        Syscall::Brk => {},
        Syscall::Sem => {},
        Syscall::Fork => {},
        Syscall::Read => {},
        Syscall::Write => {},
        Syscall::GetPid => {},
        Syscall::Spawn => {},
        Syscall::Exit => {},
        Syscall::WaitPid => {},
        Syscall::Kill => {},
        Syscall::Time => {},
        Syscall::Stat => {},
        Syscall::ListApp => {},
        Syscall::Allocate => {},
        Syscall::Deallocate => {},
        Syscall::Unknown => {},
    }
}

/// A fork leaves the parent's memory alone: whatever is written afterwards
/// to the frames of the child, the parent reads at every address what it
/// read before the fork.
pub proof fn lemma_fork_isolates_parent(
    before: &ProcessManager,
    after: &ProcessManager,
    child: ProcessId,
    memory_before: Memory,
    memory_after: Memory,
    addr: u64,
)
    requires
        before.inv(),
        before.has(before.current),
        after.forked_from(before, child),
        same_outside(memory_before, memory_after, after.process(child).vm.frames()),
    ensures
        after.process(before.current).vm == before.process(before.current).vm,
        read(&after.process(before.current).vm.page_table, memory_after, addr) == read(
            &before.process(before.current).vm.page_table,
            memory_before,
            addr,
        ),
{
    let parent = before.process(before.current).vm;
    assert(before.procs().contains_key(before.current.0 as u64));
    lemma_parent_memory_isolated(
        &parent.page_table,
        &after.process(child).vm.page_table,
        before.frames.allocated(),
        memory_before,
        memory_after,
        addr,
    );
}

/// Between operations exactly one process is running: the one that the
/// manager names as current, which is filed under its own identifier.
pub proof fn lemma_one_process_runs(manager: &ProcessManager, pid: ProcessId)
    requires
        manager.wf(),
    ensures
        manager.has(manager.current),
        manager.process(manager.current).pid == manager.current,
        manager.process(manager.current).status == ProgramStatus::Running,
        manager.has(pid) && manager.process(pid).status == ProgramStatus::Running ==> pid == manager.current,
{
    assert(manager.procs().contains_key(manager.current.0 as u64));
    if manager.has(pid) && pid != manager.current {
        assert(manager.procs().contains_key(pid.0 as u64));
    }
}

/// A page fault takes out of the table at most the process that caused
/// it, and only if it kills that process.
pub proof fn lemma_fault_keeps_lifecycle(
    before: &ProcessManager,
    after: &ProcessManager,
    live_before: ProcessContext,
    live_after: ProcessContext,
    addr: u64,
    err_code: u64,
    outcome: FaultOutcome,
    pid: ProcessId,
)
    requires
        before.wf(),
        fault_done(before, after, live_before, live_after, addr, err_code, outcome),
    ensures
        lifecycle_kept(before, after, None, pid),
        outcome != FaultOutcome::Killed || pid != before.current ==> after.has(pid) == before.has(pid),
{
}

/// Between operations nobody stands twice in the schedule, so that the
/// law of the round-robin holds of it: see
/// [`crate::sched::lemma_round_robin_fair`].
pub proof fn lemma_schedule_is_a_round(manager: &ProcessManager)
    requires
        manager.wf(),
    ensures
        no_duplicates(manager.schedule()),
        forall|pid: ProcessId|
            manager.has(pid) && manager.process(pid).status == ProgramStatus::Ready ==> #[trigger] manager.schedule().contains(
                pid,
            ),
        manager.schedule().contains(manager.current),
{
    let s = manager.schedule();
    let q = manager.ready_queue@;
    assert(s[0] == manager.current);
    assert forall|i: int| 0 <= i < q.len() implies s[i + 1] == q[i] by {}
    assert forall|i: int, j: int| 0 <= i < s.len() && 0 <= j < s.len() && i != j implies s[i] != s[j] by {
        if i > 0 {
            assert(s[i] == q[i - 1]);
            assert(manager.procs()[q[i - 1].0 as u64].status == ProgramStatus::Ready);
        }
        if j > 0 {
            assert(s[j] == q[j - 1]);
            assert(manager.procs()[q[j - 1].0 as u64].status == ProgramStatus::Ready);
        }
    }
    assert forall|pid: ProcessId|
        manager.has(pid) && manager.process(pid).status == ProgramStatus::Ready implies #[trigger] s.contains(
        pid,
    ) by {
        let k = pid.0 as u64;
        assert(manager.procs().contains_key(k));
        assert(q.contains(ProcessId(k as u16)));
        let i = choose|i: int| 0 <= i < q.len() && q[i] == pid;
        assert(s[i + 1] == pid);
    }
}

/// A timer tick moves nobody into or out of the table.
pub proof fn lemma_tick_keeps_lifecycle(
    before: &ProcessManager,
    after: &ProcessManager,
    live_before: ProcessContext,
    live_after: ProcessContext,
    pid: ProcessId,
)
    requires
        before.wf(),
        switch_done(before, after, live_before, live_after),
    ensures
        lifecycle_kept(before, after, None, pid),
        after.has(pid) == before.has(pid),
{
    assert(after.procs().dom().contains(pid.0 as u64) == before.procs().dom().contains(pid.0 as u64));
}

} // verus!
