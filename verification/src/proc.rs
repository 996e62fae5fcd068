use vstd::prelude::*;

use crate::apps::{app_index, list_item, list_len, listed, App};
use crate::boot::{count_usable, mapped, usable_frames, BootInfo};
use crate::context::ProcessContext;
use crate::manager::{ProcessInfo, ProcessManager};
use crate::pid::ProcessId;
use crate::process::{env_lookup, stream_at, EnvVar, ProgramStatus, Stream};
use crate::sync::{signal_step, wait_step, SemState, SemaphoreResult};
use crate::text::{interleaved, joined, push_str};
use crate::vm::ElfImage;

verus! {

/// The exit code of a process that was killed.
pub const KILLED: i64 = 0xdead;

/// The result with all bits set, which stands for "no such process" and
/// "could not be done".
pub const REFUSED: u64 = u64::MAX;

/// A schedule after one turn: who had the processor stands last, and the
/// others have moved up.
pub open spec fn rotated(s: Seq<ProcessId>) -> Seq<ProcessId> {
    if s.len() == 0 {
        s
    } else {
        s.subrange(1, s.len() as int).push(s[0])
    }
}

/// What the process `pid` finds as the result of its call when it runs
/// again: the register of the live context if it has the processor, else
/// the register of its saved context.
pub open spec fn result_seen(manager: &ProcessManager, live: ProcessContext, pid: ProcessId) -> u64 {
    if manager.current == pid {
        live.regs.rax
    } else {
        manager.process(pid).context.regs.rax
    }
}

/// Sets the process subsystem up from what the boot loader handed over,
/// which must keep to its bounds: the kernel process alone, without a
/// parent, running; as many frames as the memory map calls usable; the
/// programs that were loaded.
pub fn init(boot_info: BootInfo) -> (manager: ProcessManager)
    requires
        boot_info.valid(),
    ensures
        manager.wf(),
        manager.current == ProcessId::kernel(),
        manager.procs().dom() == set![1u64],
        manager.process(ProcessId::kernel()).name@ == "kernel"@,
        manager.process(ProcessId::kernel()).pid == ProcessId::kernel(),
        manager.process(ProcessId::kernel()).parent is None,
        manager.process(ProcessId::kernel()).status == ProgramStatus::Running,
        manager.process(ProcessId::kernel()).context == ProcessContext::zero(),
        manager.ready_queue@.len() == 0,
        manager.next_pid == 2,
        manager.frames.allocated() == Set::<u64>::empty(),
        manager.frames.available() == if usable_frames(mapped(boot_info.memory_map)) <= u64::MAX {
            usable_frames(mapped(boot_info.memory_map))
        } else {
            u64::MAX as nat
        },
        manager.app_list == boot_info.loaded_apps,
        manager.selectors == boot_info.user_selectors,
        manager.heap_max == boot_info.heap_max_pages,
{
    let frames = count_usable(&boot_info.memory_map);
    ProcessManager::new(
        frames,
        boot_info.user_selectors,
        boot_info.heap_max_pages,
        boot_info.loaded_apps,
    )
}

/// What a timer tick does: the running process is saved and goes to the end
/// of the ready queue, and the head of the queue runs.
pub open spec fn switch_done(
    before: &ProcessManager,
    after: &ProcessManager,
    live_before: ProcessContext,
    live_after: ProcessContext,
) -> bool {
    &&& exists|a: ProcessManager, b: ProcessManager|
        #![trigger b.pushed_from(&a, before.current)]
        a.saved_from(before, live_before) && b.pushed_from(&a, before.current)
            && after.switched_from(&b, live_after)
    &&& after.schedule() == rotated(before.schedule())
    &&& after.procs().dom() == before.procs().dom()
}

/// A timer tick: the running process gives up the processor, goes to the
/// end of the ready queue, and the head of the queue runs.
pub fn switch(manager: &mut ProcessManager, context: &mut ProcessContext)
    requires
        old(manager).wf(),
    ensures
        final(manager).wf(),
        switch_done(old(manager), final(manager), *old(context), *final(context)),
{
    let pid = manager.save_current(context);
    let ghost a = *manager;
    manager.push_ready(pid);
    let ghost b = *manager;
    proof {
        let q0 = old(manager).ready_queue@;
        assert(!q0.contains(pid)) by {
            if q0.contains(pid) {
                let i = choose|i: int| 0 <= i < q0.len() && q0[i] == pid;
                assert(old(manager).procs()[q0[i].0 as u64].status == ProgramStatus::Ready);
            }
        }
        assert(b.ready_queue@ == q0.push(pid));
        assert(b.ready_queue@[q0.len() as int] == pid);
    }
    manager.switch_next(context);
    proof {
        assert(b.pushed_from(&a, old(manager).current));
        assert(final(manager).schedule() =~= rotated(old(manager).schedule()));
        assert(final(manager).procs().dom() =~= old(manager).procs().dom());
    }
}

/// What the fork call does: save, fork, queue the parent behind the child,
/// and run the head of the queue.
pub open spec fn fork_done(
    before: &ProcessManager,
    after: &ProcessManager,
    live_before: ProcessContext,
    live_after: ProcessContext,
) -> bool {
    &&& exists|a: ProcessManager, b: ProcessManager, c: ProcessManager|
        #![trigger b.fork_step_from(&a), c.pushed_from(&b, before.current)]
        a.saved_from(before, live_before) && b.fork_step_from(&a) && c.pushed_from(
            &b,
            before.current,
        ) && after.switched_from(&c, live_after)
    &&& before.can_fork() ==> {
        let child = ProcessId(before.next_pid as u16);
        &&& !before.has(child)
        &&& after.has(child)
        &&& child != before.current
        &&& child.0 != 0
        &&& result_seen(after, live_after, child) == 0
        &&& result_seen(after, live_after, before.current) == child.0
        &&& after.process(child).parent == Some(before.current)
    }
    &&& !before.can_fork() ==> {
        &&& result_seen(after, live_after, before.current) == REFUSED
        &&& after.procs().dom() == before.procs().dom()
    }
}

/// The fork call: the running process is saved and forked, the child and
/// then the parent go to the end of the ready queue, and the head of the
/// queue runs. The child will find 0 as the result of the call, the
/// parent the identifier of the child; where no child could be made, the
/// parent finds [`REFUSED`].
pub fn fork(manager: &mut ProcessManager, context: &mut ProcessContext)
    requires
        old(manager).wf(),
    ensures
        final(manager).wf(),
        fork_done(old(manager), final(manager), *old(context), *final(context)),
{
    let parent = manager.save_current(context);
    let ghost a = *manager;
    proof {
        assert(a.can_fork() == old(manager).can_fork());
    }
    let _ = manager.fork();
    let ghost b = *manager;
    manager.push_ready(parent);
    let ghost c = *manager;
    proof {
        let q0 = b.ready_queue@;
        if !q0.contains(parent) {
            assert(c.ready_queue@[q0.len() as int] == parent);
        }
    }
    manager.switch_next(context);
    proof {
        assert(b.fork_step_from(&a));
        assert(c.pushed_from(&b, old(manager).current));
        if !old(manager).can_fork() {
            assert(final(manager).procs().dom() =~= old(manager).procs().dom());
        }
    }
}

/// What the exit call with the code `ret` does.
pub open spec fn exit_done(
    before: &ProcessManager,
    after: &ProcessManager,
    live_before: ProcessContext,
    live_after: ProcessContext,
    ret: i64,
) -> bool {
    &&& if before.current == ProcessId::kernel() {
        *after == *before && live_after == live_before
    } else {
        exists|a: ProcessManager|
            #![trigger before.killed(&a, before.current, ret)]
            before.killed(&a, before.current, ret) && after.switched_from(
                &a,
                live_after,
            )
    }
}

/// The exit call: the running process ends with the code `ret`, as
/// [`ProcessManager::killed`] says, and the head of the ready queue runs.
/// The kernel process does not end: for it nothing changes.
pub fn process_exit(manager: &mut ProcessManager, ret: i64, context: &mut ProcessContext)
    requires
        old(manager).wf(),
    ensures
        final(manager).wf(),
        exit_done(old(manager), final(manager), *old(context), *final(context), ret),
{
    if manager.current_pid().0 == 1 {
        return ;
    }
    manager.kill_self(ret);
    let ghost a = *manager;
    manager.switch_next(context);
    proof {
        assert(old(manager).killed(&a, old(manager).current, ret));
    }
}

/// Whether the running process must wait for `pid`: that process is in
/// the table and alive, it is another process, and the running process is
/// not the kernel process, which never waits.
pub open spec fn must_wait(manager: &ProcessManager, pid: ProcessId) -> bool {
    &&& manager.has(pid)
    &&& manager.process(pid).status != ProgramStatus::Dead
    &&& pid != manager.current
    &&& manager.current != ProcessId::kernel()
}

/// What the wait call for `pid` does.
pub open spec fn wait_done(
    before: &ProcessManager,
    after: &ProcessManager,
    live_before: ProcessContext,
    live_after: ProcessContext,
    pid: ProcessId,
) -> bool {
    &&& if before.has(pid) && before.process(pid).status == ProgramStatus::Dead {
        &&& after.same_but_table(before)
        &&& after.procs() == before.procs().remove(pid.0 as u64)
        &&& before.process(pid).exit_code matches Some(code)
        &&& live_after == live_before.with_rax(code as u64)
    } else if must_wait(before, pid) {
        exists|a: ProcessManager, b: ProcessManager|
            #![trigger b.blocked_from(&a, before.current, Some(pid))]
            a.saved_from(before, live_before) && b.blocked_from(
                &a,
                before.current,
                Some(pid),
            ) && after.switched_from(&b, live_after)
    } else {
        *after == *before && live_after == live_before.with_rax(REFUSED)
    }
}

/// The wait call. The exit code of a dead process is collected: the
/// process leaves the table and the caller finds the code as its result.
/// For a process that lives the caller is saved and blocked until that
/// process ends, and the head of the ready queue runs. Where no such
/// process is in the table, where the caller names itself, and where the
/// kernel process would have to wait, the caller finds [`REFUSED`].
pub fn wait_pid(manager: &mut ProcessManager, pid: ProcessId, context: &mut ProcessContext)
    requires
        old(manager).wf(),
    ensures
        final(manager).wf(),
        wait_done(old(manager), final(manager), *old(context), *final(context), pid),
{
    let found = match manager.get_proc(pid) {
        None => false,
        Some(p) => match p.status {
            ProgramStatus::Dead => false,
            _ => true,
        },
    };
    let cur = manager.current_pid();
    if found {
        if pid.0 == cur.0 || cur.0 == 1 {
            context.set_rax(REFUSED);
        } else {
            manager.save_current(context);
            let ghost a = *manager;
            manager.block_waiting(cur, Some(pid));
            let ghost b = *manager;
            manager.switch_next(context);
            proof {
                assert(b.blocked_from(&a, old(manager).current, Some(pid)));
            }
        }
        return ;
    }
    match manager.wait_pid(pid) {
        Some(code) => {
            context.set_rax(code as u64);
        },
        None => {
            context.set_rax(REFUSED);
        },
    }
}

/// The exit code of `pid`, if that process is dead and still in the
/// table; nothing is collected and nobody waits.
pub fn wait_no_block(manager: &ProcessManager, pid: ProcessId) -> (r: Option<i64>)
    requires
        manager.wf(),
    ensures
        r == if manager.has(pid) && manager.process(pid).status == ProgramStatus::Dead {
            manager.process(pid).exit_code
        } else {
            None
        },
{
    manager.get_exit_code(pid)
}

/// What a read of the descriptor `fd` does to the manager and the buffer,
/// and its result `n`.
pub open spec fn read_done(
    before: &ProcessManager,
    after: &ProcessManager,
    fd: u8,
    buf_before: Seq<u8>,
    buf_after: Seq<u8>,
    n: i64,
) -> bool {
    &&& *after == (ProcessManager { input: after.input, ..*before })
    &&& buf_after.len() == buf_before.len()
    &&& match before.readable(fd, buf_before.len()) {
        None => n == -1 && after.input == before.input && buf_after == buf_before,
        Some(bytes) => {
            &&& n == bytes.len()
            &&& buf_after == bytes + buf_before.skip(n as int)
            &&& after.input@ == before.input@.skip(n as int)
        },
    }
}

/// Reads from the descriptor `fd` of the running process; see
/// [`ProcessManager::read`].
pub fn read(manager: &mut ProcessManager, fd: u8, buf: &mut Vec<u8>) -> (n: i64)
    requires
        old(manager).wf(),
        old(buf)@.len() <= i64::MAX,
    ensures
        final(manager).wf(),
        read_done(old(manager), final(manager), fd, old(buf)@, final(buf)@, n),
{
    manager.read(fd, buf)
}

/// What a write of `buf` to the descriptor `fd` does, and its result `n`.
pub open spec fn write_done(before: &ProcessManager, after: &ProcessManager, fd: u8, buf: &Vec<u8>, n: i64) -> bool {
    &&& *after == (ProcessManager { output: after.output, ..*before })
    &&& match stream_at(before.process(before.current).data.streams@, fd) {
        Some(Stream::Stdout) | Some(Stream::Stderr) => n == buf@.len() && after.output@
            == before.output@ + buf@,
        _ => n == -1 && after.output == before.output,
    }
}

/// Writes `buf` to the descriptor `fd` of the running process; see
/// [`ProcessManager::write`].
pub fn write(manager: &mut ProcessManager, fd: u8, buf: &Vec<u8>) -> (n: i64)
    requires
        old(manager).wf(),
        buf@.len() <= i64::MAX,
    ensures
        final(manager).wf(),
        write_done(old(manager), final(manager), fd, buf, n),
{
    manager.write(fd, buf)
}

/// The identifier of the running process.
pub fn current_pid(manager: &ProcessManager) -> (pid: ProcessId)
    ensures
        pid == manager.current,
{
    manager.current_pid()
}

/// What the kill call for `pid` does.
pub open spec fn kill_done(
    before: &ProcessManager,
    after: &ProcessManager,
    live_before: ProcessContext,
    live_after: ProcessContext,
    pid: ProcessId,
) -> bool {
    &&& if !before.can_kill(pid) {
        *after == *before && live_after == live_before
    } else if pid == before.current {
        exists|a: ProcessManager|
            #![trigger before.killed(&a, pid, KILLED)]
            before.killed(&a, pid, KILLED) && after.switched_from(&a, live_after)
    } else {
        before.killed(after, pid, KILLED) && live_after == live_before
    }
}

/// The kill call: the process `pid` ends with the code [`KILLED`], as
/// [`ProcessManager::killed`] says. Where the caller names itself, the
/// head of the ready queue runs next. The kernel process cannot be
/// killed, and for a process that is dead or not in the table nothing
/// changes.
pub fn kill(manager: &mut ProcessManager, pid: ProcessId, context: &mut ProcessContext)
    requires
        old(manager).wf(),
    ensures
        final(manager).wf(),
        kill_done(old(manager), final(manager), *old(context), *final(context), pid),
{
    if pid.0 == manager.current_pid().0 {
        if pid.0 == 1 {
            return ;
        }
        manager.kill_self(KILLED);
        let ghost a = *manager;
        manager.switch_next(context);
        proof {
            assert(old(manager).killed(&a, pid, KILLED));
        }
    } else {
        manager.kill(pid, KILLED);
    }
}

/// Starts the program `image` under the name `name` as a child of the
/// running process, with an empty environment. The answer is the new
/// process's identifier, or a complaint where the manager cannot start
/// it (see [`ProcessManager::can_spawn`]).
pub fn elf_spawn(manager: &mut ProcessManager, name: String, image: &ElfImage) -> (r: Result<
    ProcessId,
    String,
>)
    requires
        old(manager).wf(),
    ensures
        final(manager).wf(),
        r is Ok <==> old(manager).can_spawn(image),
        r matches Ok(pid) ==> final(manager).spawned_from(
            old(manager),
            pid,
            image,
            name,
            Some(old(manager).current),
            final(manager).process(pid).data.env,
        ) && final(manager).process(pid).data.env@.len() == 0,
        r matches Err(e) ==> *final(manager) == *old(manager) && e@ == "Failed to spawn: "@ + name@,
{
    let parent = manager.current_pid();
    let complaint = joined("Failed to spawn: ", name.as_str());
    let env: Vec<EnvVar> = Vec::new();
    match manager.spawn(image, name, Some(parent), env) {
        Some(pid) => Ok(pid),
        None => Err(complaint),
    }
}

/// What starting the program named `name` does, and its result `r`.
pub open spec fn spawn_done(
    before: &ProcessManager,
    after: &ProcessManager,
    name: Seq<char>,
    r: Result<ProcessId, String>,
) -> bool {
    &&& match before.app_list {
        None => r matches Err(e) && e@ == "App not found: "@ + name && *after == *before,
        Some(apps) => match app_index(listed(apps), name) {
            None => r matches Err(e) && e@ == "App not found: "@ + name && *after
                == *before,
            Some(i) => {
                &&& r is Ok <==> before.can_spawn(&listed(apps)[i].image)
                &&& r matches Ok(pid) ==> after.spawned_from(
                    before,
                    pid,
                    &listed(apps)[i].image,
                    listed(apps)[i].name,
                    Some(before.current),
                    after.process(pid).data.env,
                ) && after.process(pid).data.env@.len() == 0
                &&& r matches Err(e) ==> e@ == "Failed to spawn: "@ + name && *after == *before
            },
        },
    }
}

/// Starts the program that the list of programs holds under `name`, as
/// [`elf_spawn`] does. The answer is a complaint where no list was given
/// or the list holds no such name.
pub fn spawn(manager: &mut ProcessManager, name: &str) -> (r: Result<ProcessId, String>)
    requires
        old(manager).wf(),
    ensures
        final(manager).wf(),
        spawn_done(old(manager), final(manager), name@, r),
{
    let i = match manager.find_app(name) {
        None => {
            return Err(joined("App not found: ", name));
        },
        Some(i) => i,
    };
    let list = manager.app_list.take();
    let ghost mid = *manager;
    proof {
        assert(mid.procs() == old(manager).procs());
        assert(mid.inv());
        assert(mid.wf());
    }
    let apps = list.unwrap();
    let app = list_item(&apps, i);
    let r = elf_spawn(manager, app.name.clone(), &app.image);
    manager.app_list = Some(apps);
    proof {
        assert(manager.procs() == final(manager).processes.map());
        assert(manager.inv());
    }
    r
}

/// What the list of programs reads like: the names, with a comma and a
/// blank between each two, behind a heading; or a line that says that
/// there is no list.
pub open spec fn app_list_text(manager: &ProcessManager) -> Seq<char> {
    match manager.app_list {
        None => ">>> No app found in list!"@,
        Some(apps) => ">>> App list: "@ + interleaved(listed(apps).map(|i: int, a: App| a.name@), ", "@),
    }
}

/// The list of programs as a line of text; see [`app_list_text`].
pub fn list_app(manager: &ProcessManager) -> (text: String)
    ensures
        text@ == app_list_text(manager),
{
    let apps = match manager.app_list() {
        None => {
            return ">>> No app found in list!".to_owned();
        },
        Some(apps) => apps,
    };
    let ghost rows = listed(*apps);
    let ghost names = rows.map(|i: int, a: App| a.name@);
    let n = list_len(apps);
    let mut text = ">>> App list: ".to_owned();
    let mut i: usize = 0;
    while i < n
        invariant
            rows == listed(*apps),
            n == rows.len(),
            i <= n,
            names == rows.map(|i: int, a: App| a.name@),
            text@ == ">>> App list: "@ + interleaved(names.take(i as int), ", "@),
        decreases n - i,
    {
        proof {
            let now = names.take(i + 1);
            assert(now.drop_last() == names.take(i as int));
            assert(now.last() == rows[i as int].name@);
            if i == 0 {
                assert(now.len() == 1);
                assert(interleaved(names.take(0), ", "@) == Seq::<char>::empty());
                assert(">>> App list: "@ + Seq::<char>::empty() + rows[i as int].name@ =~= ">>> App list: "@
                    + now[0]);
            } else {
                assert(">>> App list: "@ + interleaved(names.take(i as int), ", "@) + ", "@ + rows[i as int].name@
                    =~= ">>> App list: "@ + (interleaved(names.take(i as int), ", "@) + ", "@ + now.last()));
            }
        }
        if i > 0 {
            push_str(&mut text, ", ");
        }
        push_str(&mut text, list_item(apps, i).name.as_str());
        i += 1;
    }
    proof {
        assert(names.take(n as int) == names);
    }
    text
}

/// One line for each process of the table; see
/// [`ProcessManager::print_process_list`].
pub fn print_process_list(manager: &ProcessManager) -> (r: Vec<ProcessInfo>)
    ensures
        r@.len() == manager.processes.entries@.len(),
        forall|i: int|
            0 <= i < r@.len() ==> (#[trigger] r@[i]).describes(manager.processes.entries@[i].value),
{
    manager.print_process_list()
}

/// The line that describes the running process.
pub fn current_proc_info(manager: &ProcessManager) -> (info: ProcessInfo)
    requires
        manager.wf(),
    ensures
        info.describes(manager.process(manager.current)),
{
    let p = manager.current();
    ProcessInfo {
        pid: p.pid,
        parent: p.parent,
        name: p.name.clone(),
        status: p.status,
        ticks_passed: p.ticks_passed,
        pages: p.vm.page_table.table.len(),
        exit_code: p.exit_code,
    }
}

/// The value of the variable `key` in the environment of the running
/// process.
pub fn env(manager: &ProcessManager, key: &str) -> (r: Option<String>)
    requires
        manager.wf(),
    ensures
        match r {
            Some(v) => env_lookup(manager.process(manager.current).data.env@, key@) == Some(v@),
            None => env_lookup(manager.process(manager.current).data.env@, key@) is None,
        },
{
    manager.env(key)
}

/// Answers a page fault of the running process; see
/// [`ProcessManager::handle_page_fault`].
pub fn handle_page_fault(manager: &mut ProcessManager, addr: u64, err_code: u64) -> (handled: bool)
    requires
        old(manager).wf(),
    ensures
        final(manager).wf(),
        handled == old(manager).process(old(manager).current).vm.answers_fault(
            addr,
            err_code,
            old(manager).frames.available(),
        ),
        !handled ==> *final(manager) == *old(manager),
        handled ==> final(manager).same_but_memory(old(manager), old(manager).current) && old(
            manager,
        ).process(old(manager).current).vm.faulted_in(
            &final(manager).process(old(manager).current).vm,
            addr,
            old(manager).frames.allocated(),
        ),
{
    manager.handle_page_fault(addr, err_code)
}

/// How a page fault ends.
#[derive(Clone, Copy, Debug, PartialEq, Eq, Structural)]
pub enum FaultOutcome {
    /// The page is mapped now; the program goes on.
    Handled,
    /// The running process was killed for it.
    Killed,
    /// The kernel process itself touched what it must not: the machine
    /// has to halt.
    Fatal,
}

/// What a page fault at `addr` does, and how it ends.
pub open spec fn fault_done(
    before: &ProcessManager,
    after: &ProcessManager,
    live_before: ProcessContext,
    live_after: ProcessContext,
    addr: u64,
    err_code: u64,
    outcome: FaultOutcome,
) -> bool {
    let vm = before.process(before.current).vm;
    if vm.answers_fault(addr, err_code, before.frames.available()) {
        &&& outcome == FaultOutcome::Handled
        &&& live_after == live_before
        &&& after.same_but_memory(before, before.current)
        &&& vm.faulted_in(&after.process(before.current).vm, addr, before.frames.allocated())
    } else if before.current == ProcessId::kernel() {
        outcome == FaultOutcome::Fatal && *after == *before && live_after == live_before
    } else {
        outcome == FaultOutcome::Killed && kill_done(before, after, live_before, live_after, before.current)
    }
}

/// A page fault of the running process at `addr`. A fault that can be
/// answered (see [`ProcessManager::handle_page_fault`]) is answered. For
/// any other fault the running process is killed and the head of the
/// ready queue runs, unless it is the kernel process, which cannot be
/// killed: then nothing changes and the fault is fatal.
pub fn page_fault(manager: &mut ProcessManager, addr: u64, err_code: u64, context: &mut ProcessContext) -> (outcome:
    FaultOutcome)
    requires
        old(manager).wf(),
    ensures
        final(manager).wf(),
        fault_done(old(manager), final(manager), *old(context), *final(context), addr, err_code, outcome),
{
    if manager.handle_page_fault(addr, err_code) {
        FaultOutcome::Handled
    } else if manager.current_pid().0 == 1 {
        FaultOutcome::Fatal
    } else {
        let pid = manager.current_pid();
        kill(manager, pid, context);
        FaultOutcome::Killed
    }
}

/// What the call that makes a semaphore does, and its result `r`.
pub open spec fn new_sem_done(before: &ProcessManager, after: &ProcessManager, key: u32, value: u64, r: u64) -> bool {
    &&& after.same_but_family(
        before,
        before.process(before.current).data.sem_set as int,
    )
    &&& r == if before.family().contains_key(key) {
        1u64
    } else {
        0u64
    }
    &&& before.family().contains_key(key) ==> *after == *before
    &&& after.family() == if before.family().contains_key(key) {
        before.family()
    } else {
        before.family().insert(key, SemState { count: value, queue: Seq::empty() })
    }
}

/// The call that makes a semaphore: 0 where a semaphore with `value`
/// units was added under `key` to the family of the running process, 1
/// where the key was taken.
pub fn new_sem(manager: &mut ProcessManager, key: u32, value: u64) -> (r: u64)
    requires
        old(manager).wf(),
    ensures
        final(manager).wf(),
        new_sem_done(old(manager), final(manager), key, value, r),
{
    if manager.sem_new(key, value) {
        0
    } else {
        1
    }
}

/// What the call that drops a semaphore does, and its result `r`.
pub open spec fn remove_sem_done(before: &ProcessManager, after: &ProcessManager, key: u32, r: u64) -> bool {
    if before.family().contains_key(key) {
        r == 0 && after.sem_removed_from(before, key)
    } else {
        r == 1 && *after == *before
    }
}

/// The call that drops a semaphore: 0 where the family of the running
/// process had one under `key`, which is gone; its waiters are not woken
/// and are marked as stranded (see [`ProcessManager::sem_removed_from`]).
/// 1 where the family had none, and nothing changes.
pub fn remove_sem(manager: &mut ProcessManager, key: u32) -> (r: u64)
    requires
        old(manager).wf(),
    ensures
        final(manager).wf(),
        remove_sem_done(old(manager), final(manager), key, r),
{
    if manager.sem_remove(key) {
        0
    } else {
        1
    }
}

/// `after` is `before` with the step `step` taken on the semaphore under
/// `key` of the family of the running process.
pub open spec fn family_stepped(
    before: &ProcessManager,
    after: &ProcessManager,
    key: u32,
    step: SemState,
) -> bool {
    &&& after.same_but_family(before, before.process(before.current).data.sem_set as int)
    &&& after.family() == before.family().insert(key, step)
}

/// What the wait call on the semaphore under `key` does.
pub open spec fn sem_wait_done(
    before: &ProcessManager,
    after: &ProcessManager,
    live_before: ProcessContext,
    live_after: ProcessContext,
    key: u32,
) -> bool {
    &&& if !before.family().contains_key(key) {
        *after == *before && live_after == live_before.with_rax(1)
    } else if before.family()[key].count > 0 {
        &&& family_stepped(
            before,
            after,
            key,
            wait_step(before.family()[key], before.current).0,
        )
        &&& live_after == live_before.with_rax(0)
    } else if before.current == ProcessId::kernel() {
        *after == *before && live_after == live_before.with_rax(1)
    } else {
        exists|a: ProcessManager, b: ProcessManager, c: ProcessManager|
            #![trigger b.saved_from(&a, live_before), c.blocked_from(&b, before.current, None)]
            family_stepped(
                before,
                &a,
                key,
                wait_step(before.family()[key], before.current).0,
            ) && b.saved_from(&a, live_before) && c.blocked_from(&b, before.current, None)
                && after.switched_from(&c, live_after)
    }
}

/// The wait call on the semaphore under `key`. Where the family of the
/// running process has no such semaphore, the caller finds 1 and nothing
/// else changes. Where a unit is left the caller takes it and finds 0.
/// Else the caller joins the waiters, is saved and blocked, and the head
/// of the ready queue runs; only the kernel process, which is never
/// blocked, finds 1 instead and nothing changes.
pub fn sem_wait(manager: &mut ProcessManager, key: u32, context: &mut ProcessContext)
    requires
        old(manager).wf(),
    ensures
        final(manager).wf(),
        sem_wait_done(old(manager), final(manager), *old(context), *final(context), key),
{
    let pid = manager.current_pid();
    if pid.0 == 1 {
        match manager.sem_count(key) {
            Some(0) => {
                context.set_rax(1);
                return ;
            },
            _ => {},
        }
    }
    match manager.sem_wait(key, pid) {
        SemaphoreResult::Done => {
            context.set_rax(0);
        },
        SemaphoreResult::NotExist => {
            context.set_rax(1);
        },
        SemaphoreResult::Block(_) => {
            let ghost a = *manager;
            manager.save_current(context);
            let ghost b = *manager;
            manager.block(pid);
            let ghost c = *manager;
            manager.switch_next(context);
            proof {
                assert(b.saved_from(&a, *old(context)));
                assert(c.blocked_from(&b, old(manager).current, None));
            }
        },
        SemaphoreResult::WakeUp(_) => {},
    }
}

/// What the signal call on the semaphore under `key` does.
pub open spec fn sem_signal_done(
    before: &ProcessManager,
    after: &ProcessManager,
    live_before: ProcessContext,
    live_after: ProcessContext,
    key: u32,
) -> bool {
    &&& if !before.family().contains_key(key) {
        *after == *before && live_after == live_before.with_rax(1)
    } else {
        &&& live_after == live_before.with_rax(0)
        &&& match signal_step(before.family()[key]).1 {
            SemaphoreResult::WakeUp(pid) => exists|a: ProcessManager|
                #![trigger family_stepped(before, &a, key, signal_step(before.family()[key]).0)]
                family_stepped(before, &a, key, signal_step(before.family()[key]).0) && (if a.has(
                    pid,
                ) && a.process(pid).status == ProgramStatus::Blocked {
                    after.woken_from(&a, pid, 0)
                } else {
                    *after == a
                }),
            _ => family_stepped(
                before,
                after,
                key,
                signal_step(before.family()[key]).0,
            ),
        }
    }
}

/// The signal call on the semaphore under `key`. Where the family of the
/// running process has no such semaphore the caller finds 1. Else the
/// caller finds 0, and the unit goes to the longest waiting process,
/// which is woken with the result 0 if it is blocked, or to the counter
/// where nobody waits.
pub fn sem_signal(manager: &mut ProcessManager, key: u32, context: &mut ProcessContext)
    requires
        old(manager).wf(),
    ensures
        final(manager).wf(),
        sem_signal_done(old(manager), final(manager), *old(context), *final(context), key),
{
    match manager.sem_signal(key) {
        SemaphoreResult::Done => {
            context.set_rax(0);
        },
        SemaphoreResult::NotExist => {
            context.set_rax(1);
        },
        SemaphoreResult::WakeUp(pid) => {
            let ghost a = *manager;
            manager.wake_up(pid, 0);
            context.set_rax(0);
            proof {
                assert(family_stepped(old(manager), &a, key, signal_step(old(manager).family()[key]).0));
            }
        },
        SemaphoreResult::Block(_) => {},
    }
}

/// What the heap call does, and its result `end`.
pub open spec fn brk_done(before: &ProcessManager, after: &ProcessManager, addr: Option<u64>, end: u64) -> bool {
    &&& end == after.process(before.current).vm.heap_end_addr()
    &&& match addr {
        None => *after == *before,
        Some(a) => if before.process(before.current).vm.brk_moves(a, before.frames.available()) {
            &&& after.same_but_memory(before, before.current)
            &&& before.process(before.current).vm.moved_to(
                &after.process(before.current).vm,
                a,
                before.frames.allocated(),
            )
        } else {
            *after == *before
        },
    }
}

/// Asking where the heap ends changes nothing, so that two such calls in
/// a row get the same answer.
pub proof fn lemma_brk_query_is_pure(
    a: &ProcessManager,
    b: &ProcessManager,
    c: &ProcessManager,
    first: u64,
    second: u64,
)
    requires
        brk_done(a, b, None, first),
        brk_done(b, c, None, second),
    ensures
        first == second,
        *b == *a,
        *c == *a,
{
}

/// An exit code is collected once: when a wait has collected the code of
/// the dead process `pid`, that process is gone, and whoever waits for it
/// again finds [`REFUSED`].
pub proof fn lemma_exit_code_collected_once(
    a: &ProcessManager,
    b: &ProcessManager,
    c: &ProcessManager,
    live_a: ProcessContext,
    live_b: ProcessContext,
    live_c: ProcessContext,
    later: ProcessContext,
    pid: ProcessId,
)
    requires
        a.wf(),
        a.has(pid),
        a.process(pid).status == ProgramStatus::Dead,
        wait_done(a, b, live_a, live_b, pid),
        wait_done(b, c, later, live_c, pid),
    ensures
        a.process(pid).exit_code is Some,
        live_b.regs.rax == a.process(pid).exit_code->0 as u64,
        !b.has(pid),
        !c.has(pid),
        live_c.regs.rax == REFUSED,
{
}

/// The heap call of the running process; see [`ProcessManager::brk`].
/// The answer is the address at which the heap of that process ends
/// afterwards, whoever calls: for the kernel process, whose address space
/// has no room for a heap, the end never moves.
pub fn brk(manager: &mut ProcessManager, addr: Option<u64>) -> (end: u64)
    requires
        old(manager).wf(),
    ensures
        final(manager).wf(),
        brk_done(old(manager), final(manager), addr, end),
{
    manager.brk(addr)
}

} // verus!
