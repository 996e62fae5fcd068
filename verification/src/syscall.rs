use vstd::prelude::*;
use vstd::utf8::{decode_utf8, valid_utf8};

use crate::context::ProcessContext;
use crate::manager::{ProcessInfo, ProcessManager};
use crate::pid::ProcessId;
use crate::proc::{
    app_list_text, brk_done, exit_done, fork_done, kill_done, new_sem_done, remove_sem_done,
    sem_signal_done, sem_wait_done, spawn_done, wait_done,
};
use crate::text::text_of;
use crate::time::{clock_value, Timestamp};

verus! {

/// The calls that a program can make of the kernel.
#[derive(Clone, Copy, Debug, PartialEq, Eq, Structural)]
pub enum Syscall {
    Read,
    Write,
    Brk,
    GetPid,
    Fork,
    Spawn,
    Exit,
    WaitPid,
    Kill,
    Sem,
    Time,
    ListApp,
    Stat,
    Allocate,
    Deallocate,
    /// Any number that names no call; such a call does nothing and is
    /// answered 0.
    Unknown,
}

impl Syscall {
    /// The number by which programs name the call.
    pub open spec fn number(self) -> u64 {
        match self {
            Syscall::Read => 0,
            Syscall::Write => 1,
            Syscall::Brk => 12,
            Syscall::GetPid => 39,
            Syscall::Fork => 58,
            Syscall::Spawn => 59,
            Syscall::Exit => 60,
            Syscall::WaitPid => 61,
            Syscall::Kill => 62,
            Syscall::Sem => 66,
            Syscall::Time => 201,
            Syscall::ListApp => 65531,
            Syscall::Stat => 65532,
            Syscall::Allocate => 65533,
            Syscall::Deallocate => 65534,
            Syscall::Unknown => 65535,
        }
    }

    /// The call that the number `n` names.
    pub open spec fn of(n: u64) -> Syscall {
        if n == 0 {
            Syscall::Read
        } else if n == 1 {
            Syscall::Write
        } else if n == 12 {
            Syscall::Brk
        } else if n == 39 {
            Syscall::GetPid
        } else if n == 58 {
            Syscall::Fork
        } else if n == 59 {
            Syscall::Spawn
        } else if n == 60 {
            Syscall::Exit
        } else if n == 61 {
            Syscall::WaitPid
        } else if n == 62 {
            Syscall::Kill
        } else if n == 66 {
            Syscall::Sem
        } else if n == 201 {
            Syscall::Time
        } else if n == 65531 {
            Syscall::ListApp
        } else if n == 65532 {
            Syscall::Stat
        } else if n == 65533 {
            Syscall::Allocate
        } else if n == 65534 {
            Syscall::Deallocate
        } else {
            Syscall::Unknown
        }
    }

    /// The call that the number `n` names.
    pub fn from(n: u64) -> (s: Syscall)
        ensures
            s == Syscall::of(n),
    {
        if n == 0 {
            Syscall::Read
        } else if n == 1 {
            Syscall::Write
        } else if n == 12 {
            Syscall::Brk
        } else if n == 39 {
            Syscall::GetPid
        } else if n == 58 {
            Syscall::Fork
        } else if n == 59 {
            Syscall::Spawn
        } else if n == 60 {
            Syscall::Exit
        } else if n == 61 {
            Syscall::WaitPid
        } else if n == 62 {
            Syscall::Kill
        } else if n == 66 {
            Syscall::Sem
        } else if n == 201 {
            Syscall::Time
        } else if n == 65531 {
            Syscall::ListApp
        } else if n == 65532 {
            Syscall::Stat
        } else if n == 65533 {
            Syscall::Allocate
        } else if n == 65534 {
            Syscall::Deallocate
        } else {
            Syscall::Unknown
        }
    }

    /// The number by which programs name this call.
    pub fn to_number(self) -> (n: u64)
        ensures
            n == self.number(),
    {
        match self {
            Syscall::Read => 0,
            Syscall::Write => 1,
            Syscall::Brk => 12,
            Syscall::GetPid => 39,
            Syscall::Fork => 58,
            Syscall::Spawn => 59,
            Syscall::Exit => 60,
            Syscall::WaitPid => 61,
            Syscall::Kill => 62,
            Syscall::Sem => 66,
            Syscall::Time => 201,
            Syscall::ListApp => 65531,
            Syscall::Stat => 65532,
            Syscall::Allocate => 65533,
            Syscall::Deallocate => 65534,
            Syscall::Unknown => 65535,
        }
    }
}

/// Every call is the call that its number names.
pub proof fn lemma_number_names_call(s: Syscall)
    ensures
        Syscall::of(s.number()) == s,
{
}

/// A call with the three arguments that travel in registers.
#[derive(Clone, Copy, Debug, PartialEq, Eq, Structural)]
pub struct SyscallArgs {
    pub syscall: Syscall,
    pub arg0: u64,
    pub arg1: u64,
    pub arg2: u64,
}

impl SyscallArgs {
    /// The call with its arguments.
    pub fn new(syscall: Syscall, arg0: u64, arg1: u64, arg2: u64) -> (args: Self)
        ensures
            args == (SyscallArgs { syscall, arg0, arg1, arg2 }),
    {
        Self { syscall, arg0, arg1, arg2 }
    }

    /// The call that a program has made when it traps with the context
    /// `context`: the number of the call in the first scratch register,
    /// its arguments in the next three.
    pub open spec fn decoded(context: ProcessContext) -> SyscallArgs {
        SyscallArgs {
            syscall: Syscall::of(context.regs.rax),
            arg0: context.regs.rdi,
            arg1: context.regs.rsi,
            arg2: context.regs.rdx,
        }
    }

    /// Reads the call off the context of the program that trapped.
    pub fn from_context(context: &ProcessContext) -> (args: Self)
        ensures
            args == Self::decoded(*context),
    {
        SyscallArgs::new(
            Syscall::from(context.regs.rax),
            context.regs.rdi,
            context.regs.rsi,
            context.regs.rdx,
        )
    }

    /// What the caller of the dispatcher has to fetch for this call.
    pub open spec fn needs(self) -> Fetch {
        match self.syscall {
            Syscall::Write => Fetch::Bytes { addr: self.arg1, len: self.arg2 },
            Syscall::Spawn => Fetch::Bytes { addr: self.arg0, len: self.arg1 },
            Syscall::Time => Fetch::Clock,
            Syscall::Allocate => Fetch::Layout { addr: self.arg0 },
            Syscall::Deallocate => Fetch::Layout { addr: self.arg1 },
            _ => Fetch::Nothing,
        }
    }

    /// What the caller of the dispatcher has to fetch for this call: the
    /// bytes that a write or a name points to, the time, or the layout
    /// that a request for memory points to.
    pub fn wants(&self) -> (f: Fetch)
        ensures
            f == self.needs(),
    {
        match self.syscall {
            Syscall::Write => Fetch::Bytes { addr: self.arg1, len: self.arg2 },
            Syscall::Spawn => Fetch::Bytes { addr: self.arg0, len: self.arg1 },
            Syscall::Time => Fetch::Clock,
            Syscall::Allocate => Fetch::Layout { addr: self.arg0 },
            Syscall::Deallocate => Fetch::Layout { addr: self.arg1 },
            _ => Fetch::Nothing,
        }
    }
}

/// What a call needs from outside the process subsystem before it can be
/// served.
#[derive(Clone, Copy, Debug, PartialEq, Eq, Structural)]
pub enum Fetch {
    Nothing,
    /// `len` bytes of the caller's memory from the address `addr`.
    Bytes { addr: u64, len: u64 },
    /// The time.
    Clock,
    /// The layout of a block of memory, which the caller keeps at `addr`.
    Layout { addr: u64 },
}

/// Size and alignment of a block of memory.
#[derive(Clone, Copy, Debug, PartialEq, Eq, Structural)]
pub struct MemLayout {
    pub size: u64,
    pub align: u64,
}

/// What was fetched for a call; see [`SyscallArgs::wants`]. What a call
/// does not need is ignored.
pub struct SyscallInput {
    pub bytes: Vec<u8>,
    pub now: Timestamp,
    pub layout: Option<MemLayout>,
}

/// What is left to do outside the process subsystem when a call has been
/// served.
pub enum Action {
    Nothing,
    /// Copy `bytes` into the caller's memory at `addr`.
    CopyToUser { addr: u64, bytes: Vec<u8> },
    /// Show the list of programs.
    ShowApps { text: String },
    /// Show the list of processes.
    ShowProcesses { lines: Vec<ProcessInfo> },
    /// Take a block of this layout from the allocator of user memory and
    /// report its address with [`finish_allocate`].
    Allocate { layout: MemLayout },
    /// Give the block at `ptr` back to the allocator of user memory.
    Deallocate { ptr: u64, layout: MemLayout },
}

/// The clock call: the nanoseconds since the beginning of 1970 at the
/// moment `now`, or 0 where they do not fit.
pub fn sys_clock(now: Timestamp) -> (r: i64)
    ensures
        r == clock_value(now),
{
    crate::time::to_nanos(now)
}

/// What the call for memory leaves to do for the layout that was fetched:
/// nothing, with the answer 0, where there is no layout or it asks for no
/// bytes; else the allocation.
pub open spec fn allocate_action(layout: Option<MemLayout>) -> Action {
    match layout {
        Some(l) => if l.size == 0 {
            Action::Nothing
        } else {
            Action::Allocate { layout: l }
        },
        None => Action::Nothing,
    }
}

/// The call for memory; see [`allocate_action`]. Where nothing is left to
/// do the caller finds 0.
pub fn sys_allocate(layout: Option<MemLayout>, context: &mut ProcessContext) -> (action: Action)
    ensures
        action == allocate_action(layout),
        *final(context) == if action is Nothing {
            old(context).with_rax(0)
        } else {
            *old(context)
        },
{
    match layout {
        Some(l) => {
            if l.size == 0 {
                context.set_rax(0);
                Action::Nothing
            } else {
                Action::Allocate { layout: l }
            }
        },
        None => {
            context.set_rax(0);
            Action::Nothing
        },
    }
}

/// Reports what the allocator answered to the program that asked for
/// memory: the address of the block, or 0 where there was none.
pub fn finish_allocate(context: &mut ProcessContext, block: Option<u64>)
    ensures
        *final(context) == old(context).with_rax(
            match block {
                Some(ptr) => ptr,
                None => 0,
            },
        ),
{
    match block {
        Some(ptr) => context.set_rax(ptr),
        None => context.set_rax(0),
    }
}

/// What the call that gives memory back leaves to do: nothing for the
/// null address, for a layout of no bytes and where no layout was
/// fetched; else the deallocation.
pub open spec fn deallocate_action(args: SyscallArgs, layout: Option<MemLayout>) -> Action {
    match layout {
        Some(l) => if args.arg0 == 0 || l.size == 0 {
            Action::Nothing
        } else {
            Action::Deallocate { ptr: args.arg0, layout: l }
        },
        None => Action::Nothing,
    }
}

/// The call that gives memory back; see [`deallocate_action`].
pub fn sys_deallocate(args: &SyscallArgs, layout: Option<MemLayout>) -> (action: Action)
    ensures
        action == deallocate_action(*args, layout),
{
    match layout {
        Some(l) => {
            if args.arg0 == 0 || l.size == 0 {
                Action::Nothing
            } else {
                Action::Deallocate { ptr: args.arg0, layout: l }
            }
        },
        None => Action::Nothing,
    }
}

/// What the call that starts a program does with the bytes of the name,
/// and its result `r`: 0 where the bytes are no text, where no program
/// has that name, and where the program cannot be started; else the
/// identifier of the new process.
pub open spec fn spawn_process_done(
    before: &ProcessManager,
    after: &ProcessManager,
    name: Seq<u8>,
    r: u64,
) -> bool {
    if !valid_utf8(name) {
        r == 0 && *after == *before
    } else {
        exists|res: Result<ProcessId, String>| #[trigger]
            spawn_done(before, after, decode_utf8(name), res) && r == match res {
                Ok(pid) => pid.0 as u64,
                Err(_) => 0,
            }
    }
}

/// The call that starts a program by name; see [`spawn_process_done`].
pub fn spawn_process(manager: &mut ProcessManager, name: &Vec<u8>) -> (r: u64)
    requires
        old(manager).wf(),
    ensures
        final(manager).wf(),
        spawn_process_done(old(manager), final(manager), name@, r),
{
    let text = match text_of(name) {
        None => {
            return 0;
        },
        Some(text) => text,
    };
    let res = crate::proc::spawn(manager, text.as_str());
    let r = match &res {
        Ok(pid) => pid.0 as u64,
        Err(_) => 0,
    };
    proof {
        assert(spawn_done(old(manager), final(manager), decode_utf8(name@), res));
    }
    r
}

/// The room that a read may fill: what the caller asked for, but no more
/// than there is input.
pub open spec fn read_room(manager: &ProcessManager, asked: u64) -> nat {
    if asked <= manager.input@.len() {
        asked as nat
    } else {
        manager.input@.len()
    }
}

/// What the read call does, with its result `r` and the bytes to copy to
/// the caller: the oldest bytes of the input, as many as were asked for
/// and as there are, for the descriptor of the input; the result with all
/// bits set, and no bytes, for any other descriptor.
pub open spec fn sys_read_done(
    before: &ProcessManager,
    after: &ProcessManager,
    args: SyscallArgs,
    r: u64,
    bytes: Seq<u8>,
) -> bool {
    &&& *after == (ProcessManager { input: after.input, ..*before })
    &&& match before.readable(args.arg0 as u8, read_room(before, args.arg2)) {
        None => r == u64::MAX && bytes.len() == 0 && after.input == before.input,
        Some(taken) => r == taken.len() && bytes == taken && after.input@ == before.input@.skip(
            taken.len() as int,
        ),
    }
}

/// The read call: descriptor, address and length are its arguments; see
/// [`sys_read_done`]. The bytes are to be copied to the address.
pub fn sys_read(manager: &mut ProcessManager, args: &SyscallArgs) -> (r: (u64, Vec<u8>))
    requires
        old(manager).wf(),
        old(manager).input@.len() <= i64::MAX,
    ensures
        final(manager).wf(),
        sys_read_done(old(manager), final(manager), *args, r.0, r.1@),
{
    let fd = args.arg0 as u8;
    let have = manager.input.len();
    let room: usize = if args.arg2 <= have as u64 {
        args.arg2 as usize
    } else {
        have
    };
    let mut buf: Vec<u8> = Vec::new();
    let mut i: usize = 0;
    while i < room
        invariant
            i <= room,
            buf@.len() == i,
        decreases room - i,
    {
        buf.push(0);
        i += 1;
    }
    let n = crate::proc::read(manager, fd, &mut buf);
    if n < 0 {
        (u64::MAX, Vec::new())
    } else {
        proof {
            let taken = old(manager).readable(fd, room as nat)->0;
            assert(taken.len() == room);
            assert(buf@ =~= taken);
        }
        (n as u64, buf)
    }
}

/// What the write call does with the bytes that were fetched, and its
/// result `r`: where they are as many as the call says, the result of
/// [`crate::proc::write`]; else the result with all bits set, and
/// nothing written.
pub open spec fn sys_write_done(
    before: &ProcessManager,
    after: &ProcessManager,
    args: SyscallArgs,
    bytes: &Vec<u8>,
    r: u64,
) -> bool {
    if bytes@.len() == args.arg2 && args.arg2 <= i64::MAX {
        exists|n: i64| #[trigger] crate::proc::write_done(before, after, args.arg0 as u8, bytes, n) && r == n as u64
    } else {
        r == u64::MAX && *after == *before
    }
}

/// The write call: descriptor, address and length are its arguments;
/// `bytes` is what was fetched from the address. See [`sys_write_done`].
pub fn sys_write(manager: &mut ProcessManager, args: &SyscallArgs, bytes: &Vec<u8>) -> (r: u64)
    requires
        old(manager).wf(),
    ensures
        final(manager).wf(),
        sys_write_done(old(manager), final(manager), *args, bytes, r),
{
    if bytes.len() as u64 != args.arg2 || args.arg2 > i64::MAX as u64 {
        return u64::MAX;
    }
    let n = crate::proc::write(manager, args.arg0 as u8, bytes);
    n as u64
}

/// The identifier of the process that made the call.
pub fn sys_get_pid(manager: &ProcessManager) -> (pid: u16)
    ensures
        pid == manager.current.0,
{
    crate::proc::current_pid(manager).0
}

/// The exit call: the first argument is the exit code.
pub fn exit_process(manager: &mut ProcessManager, args: &SyscallArgs, context: &mut ProcessContext)
    requires
        old(manager).wf(),
    ensures
        final(manager).wf(),
        exit_done(old(manager), final(manager), *old(context), *final(context), args.arg0 as i64),
{
    crate::proc::process_exit(manager, args.arg0 as i64, context);
}

/// The list of processes, one line each.
pub fn list_process(manager: &ProcessManager) -> (r: Vec<ProcessInfo>)
    ensures
        r@.len() == manager.processes.entries@.len(),
        forall|i: int|
            0 <= i < r@.len() ==> (#[trigger] r@[i]).describes(manager.processes.entries@[i].value),
{
    crate::proc::print_process_list(manager)
}

/// The wait call: the first argument, cut to sixteen bits, names the
/// process.
pub fn sys_wait_pid(manager: &mut ProcessManager, args: &SyscallArgs, context: &mut ProcessContext)
    requires
        old(manager).wf(),
    ensures
        final(manager).wf(),
        wait_done(
            old(manager),
            final(manager),
            *old(context),
            *final(context),
            ProcessId(args.arg0 as u16),
        ),
{
    let pid = ProcessId(args.arg0 as u16);
    crate::proc::wait_pid(manager, pid, context);
}

/// The kill call: the first argument, cut to sixteen bits, names the
/// process. The kernel process is not killed: for it nothing changes.
pub fn sys_kill(manager: &mut ProcessManager, args: &SyscallArgs, context: &mut ProcessContext)
    requires
        old(manager).wf(),
    ensures
        final(manager).wf(),
        kill_done(
            old(manager),
            final(manager),
            *old(context),
            *final(context),
            ProcessId(args.arg0 as u16),
        ),
        ProcessId(args.arg0 as u16) == ProcessId::kernel() ==> *final(manager) == *old(manager)
            && *final(context) == *old(context),
{
    let pid = ProcessId(args.arg0 as u16);
    if pid.0 == 1 {
        return ;
    }
    crate::proc::kill(manager, pid, context);
}

/// The fork call.
pub fn sys_fork(manager: &mut ProcessManager, context: &mut ProcessContext)
    requires
        old(manager).wf(),
    ensures
        final(manager).wf(),
        fork_done(old(manager), final(manager), *old(context), *final(context)),
{
    crate::proc::fork(manager, context)
}

/// What the semaphore call does. The first argument chooses: 0 makes a
/// semaphore, 1 drops one, 2 signals, 3 waits; the second, cut to 32
/// bits, is the key; the third is the value of a new semaphore. For any
/// other choice the caller finds the result with all bits set.
pub open spec fn sys_sem_done(
    before: &ProcessManager,
    after: &ProcessManager,
    live_before: ProcessContext,
    live_after: ProcessContext,
    args: SyscallArgs,
) -> bool {
    let key = args.arg1 as u32;
    if args.arg0 == 0 {
        new_sem_done(before, after, key, args.arg2, live_after.regs.rax) && live_after
            == live_before.with_rax(live_after.regs.rax)
    } else if args.arg0 == 1 {
        remove_sem_done(before, after, key, live_after.regs.rax) && live_after == live_before.with_rax(
            live_after.regs.rax,
        )
    } else if args.arg0 == 2 {
        sem_signal_done(before, after, live_before, live_after, key)
    } else if args.arg0 == 3 {
        sem_wait_done(before, after, live_before, live_after, key)
    } else {
        *after == *before && live_after == live_before.with_rax(u64::MAX)
    }
}

/// The semaphore call; see [`sys_sem_done`].
pub fn sys_sem(manager: &mut ProcessManager, args: &SyscallArgs, context: &mut ProcessContext)
    requires
        old(manager).wf(),
    ensures
        final(manager).wf(),
        sys_sem_done(old(manager), final(manager), *old(context), *final(context), *args),
{
    let key = args.arg1 as u32;
    if args.arg0 == 0 {
        let r = crate::proc::new_sem(manager, key, args.arg2);
        context.set_rax(r);
    } else if args.arg0 == 1 {
        let r = crate::proc::remove_sem(manager, key);
        context.set_rax(r);
    } else if args.arg0 == 2 {
        crate::proc::sem_signal(manager, key, context);
    } else if args.arg0 == 3 {
        crate::proc::sem_wait(manager, key, context);
    } else {
        context.set_rax(u64::MAX);
    }
}

/// The address that the heap call asks for: none where the argument is 0.
pub open spec fn brk_request(args: SyscallArgs) -> Option<u64> {
    if args.arg0 == 0 {
        None
    } else {
        Some(args.arg0)
    }
}

/// The heap call: the first argument is the address at which the heap
/// shall end, or 0 to ask where it ends.
pub fn sys_brk(manager: &mut ProcessManager, args: &SyscallArgs) -> (end: u64)
    requires
        old(manager).wf(),
    ensures
        final(manager).wf(),
        brk_done(old(manager), final(manager), brk_request(*args), end),
{
    let new_heap_end = if args.arg0 == 0 {
        None
    } else {
        Some(args.arg0)
    };
    crate::proc::brk(manager, new_heap_end)
}

/// What the dispatcher does with a call: how manager and live context
/// change, and what it leaves to do.
pub open spec fn dispatched(
    before: &ProcessManager,
    after: &ProcessManager,
    live_before: ProcessContext,
    live_after: ProcessContext,
    input: &SyscallInput,
    action: Action,
) -> bool {
    let args = SyscallArgs::decoded(live_before);
    let result = live_after.regs.rax;
    let answered = live_after == live_before.with_rax(result);
    match args.syscall {
        Syscall::Brk => brk_done(before, after, brk_request(args), result) && answered && action is Nothing,
        Syscall::Sem => sys_sem_done(before, after, live_before, live_after, args) && action is Nothing,
        Syscall::Fork => fork_done(before, after, live_before, live_after) && action is Nothing,
        Syscall::Read => {
            &&& answered
            &&& action matches Action::CopyToUser { addr, bytes }
            &&& addr == args.arg1
            &&& sys_read_done(before, after, args, result, bytes@)
        },
        Syscall::Write => sys_write_done(before, after, args, &input.bytes, result) && answered
            && action is Nothing,
        Syscall::GetPid => *after == *before && result == before.current.0 && answered && action is Nothing,
        Syscall::Spawn => spawn_process_done(before, after, input.bytes@, result) && answered
            && action is Nothing,
        Syscall::Exit => exit_done(before, after, live_before, live_after, args.arg0 as i64)
            && action is Nothing,
        Syscall::WaitPid => wait_done(before, after, live_before, live_after, ProcessId(args.arg0 as u16))
            && action is Nothing,
        Syscall::Kill => kill_done(before, after, live_before, live_after, ProcessId(args.arg0 as u16))
            && action is Nothing,
        Syscall::Time => *after == *before && result == clock_value(input.now) as u64 && answered
            && action is Nothing,
        Syscall::Stat => {
            &&& *after == *before
            &&& live_after == live_before
            &&& action matches Action::ShowProcesses { lines }
            &&& lines@.len() == before.processes.entries@.len()
            &&& forall|i: int|
                0 <= i < lines@.len() ==> (#[trigger] lines@[i]).describes(
                    before.processes.entries@[i].value,
                )
        },
        Syscall::ListApp => {
            &&& *after == *before
            &&& live_after == live_before
            &&& action matches Action::ShowApps { text }
            &&& text@ == app_list_text(before)
        },
        Syscall::Allocate => *after == *before && action == allocate_action(input.layout) && live_after
            == if action is Nothing {
            live_before.with_rax(0)
        } else {
            live_before
        },
        Syscall::Deallocate => *after == *before && live_after == live_before && action
            == deallocate_action(args, input.layout),
        Syscall::Unknown => *after == *before && live_after == live_before.with_rax(0) && action is Nothing,
    }
}

/// Serves the call that the program with the live context `context` has
/// made: reads number and arguments off the context, has the manager do
/// what the call asks, writes the result where the program will look for
/// it, and says what is left to do outside. A number that names no call
/// is answered 0 and changes nothing else.
pub fn dispatcher(manager: &mut ProcessManager, context: &mut ProcessContext, input: &SyscallInput) -> (action:
    Action)
    requires
        old(manager).wf(),
        old(manager).input@.len() <= i64::MAX,
    ensures
        final(manager).wf(),
        dispatched(old(manager), final(manager), *old(context), *final(context), input, action),
{
    let args = SyscallArgs::from_context(context);
    match args.syscall {
        Syscall::Brk => {
            let end = sys_brk(manager, &args);
            context.set_rax(end);
            Action::Nothing
        },
        Syscall::Sem => {
            sys_sem(manager, &args, context);
            Action::Nothing
        },
        Syscall::Fork => {
            sys_fork(manager, context);
            Action::Nothing
        },
        Syscall::Read => {
            let (n, bytes) = sys_read(manager, &args);
            context.set_rax(n);
            proof {
                assert(sys_read_done(old(manager), manager, args, n, bytes@));
            }
            Action::CopyToUser { addr: args.arg1, bytes }
        },
        Syscall::Write => {
            let n = sys_write(manager, &args, &input.bytes);
            context.set_rax(n);
            Action::Nothing
        },
        Syscall::GetPid => {
            let pid = sys_get_pid(manager);
            context.set_rax(pid as u64);
            Action::Nothing
        },
        Syscall::Spawn => {
            let pid = spawn_process(manager, &input.bytes);
            context.set_rax(pid);
            Action::Nothing
        },
        Syscall::Exit => {
            exit_process(manager, &args, context);
            Action::Nothing
        },
        Syscall::WaitPid => {
            sys_wait_pid(manager, &args, context);
            Action::Nothing
        },
        Syscall::Kill => {
            sys_kill(manager, &args, context);
            Action::Nothing
        },
        Syscall::Time => {
            let t = sys_clock(input.now);
            context.set_rax(t as u64);
            Action::Nothing
        },
        Syscall::Stat => Action::ShowProcesses { lines: list_process(manager) },
        Syscall::ListApp => Action::ShowApps { text: crate::proc::list_app(manager) },
        Syscall::Allocate => sys_allocate(input.layout, context),
        Syscall::Deallocate => sys_deallocate(&args, input.layout),
        Syscall::Unknown => {
            context.set_rax(0);
            Action::Nothing
        },
    }
}

} // verus!
