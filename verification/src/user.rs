use vstd::prelude::*;

use crate::context::{ProcessContext, RegistersValue};
use crate::syscall::{lemma_number_names_call, Syscall, SyscallArgs};
use crate::time::{time_of, Timestamp};

verus! {

/// The context `context` with the call `args` in the registers in which
/// the kernel looks for it.
pub open spec fn loaded(context: ProcessContext, args: SyscallArgs) -> ProcessContext {
    ProcessContext {
        regs: RegistersValue {
            rax: args.syscall.number(),
            rdi: args.arg0,
            rsi: args.arg1,
            rdx: args.arg2,
            ..context.regs
        },
        ..context
    }
}

/// Puts the call into the registers of `context`, as a program does
/// before it traps into the kernel.
pub fn load_call(context: &mut ProcessContext, args: &SyscallArgs)
    ensures
        *final(context) == loaded(*old(context), *args),
        SyscallArgs::decoded(*final(context)) == *args,
{
    proof {
        lemma_number_names_call(args.syscall);
    }
    context.regs.rax = args.syscall.to_number();
    context.regs.rdi = args.arg0;
    context.regs.rsi = args.arg1;
    context.regs.rdx = args.arg2;
}

/// What a count of bytes means that the kernel has answered: nothing if
/// it is negative as a signed number.
pub open spec fn count_of(ret: u64) -> Option<u64> {
    if ret > i64::MAX {
        None
    } else {
        Some(ret)
    }
}

/// Reads the answer to a read or a write: the number of bytes, unless
/// the kernel refused.
pub fn byte_count(ret: u64) -> (r: Option<u64>)
    ensures
        r == count_of(ret),
{
    if ret > i64::MAX as u64 {
        None
    } else {
        Some(ret)
    }
}

/// The call that writes `len` bytes from the address `buf` to the
/// descriptor `fd`.
pub fn sys_write(fd: u8, buf: u64, len: u64) -> (args: SyscallArgs)
    ensures
        args == (SyscallArgs { syscall: Syscall::Write, arg0: fd as u64, arg1: buf, arg2: len }),
{
    SyscallArgs::new(Syscall::Write, fd as u64, buf, len)
}

/// The call that reads at most `len` bytes from the descriptor `fd` to
/// the address `buf`.
pub fn sys_read(fd: u8, buf: u64, len: u64) -> (args: SyscallArgs)
    ensures
        args == (SyscallArgs { syscall: Syscall::Read, arg0: fd as u64, arg1: buf, arg2: len }),
{
    SyscallArgs::new(Syscall::Read, fd as u64, buf, len)
}

/// The call that asks for a block of memory of the layout kept at the
/// address `layout`. The answer is the address of the block, or 0.
pub fn sys_allocate(layout: u64) -> (args: SyscallArgs)
    ensures
        args == (SyscallArgs { syscall: Syscall::Allocate, arg0: layout, arg1: 0, arg2: 0 }),
{
    SyscallArgs::new(Syscall::Allocate, layout, 0, 0)
}

/// The call that gives the block at `ptr`, of the layout kept at the
/// address `layout`, back.
pub fn sys_deallocate(ptr: u64, layout: u64) -> (args: SyscallArgs)
    ensures
        args == (SyscallArgs { syscall: Syscall::Deallocate, arg0: ptr, arg1: layout, arg2: 0 }),
{
    SyscallArgs::new(Syscall::Deallocate, ptr, layout, 0)
}

/// The call that shows the list of programs.
pub fn sys_list_app() -> (args: SyscallArgs)
    ensures
        args == (SyscallArgs { syscall: Syscall::ListApp, arg0: 0, arg1: 0, arg2: 0 }),
{
    SyscallArgs::new(Syscall::ListApp, 0, 0, 0)
}

/// The call that shows the list of processes.
pub fn sys_stat() -> (args: SyscallArgs)
    ensures
        args == (SyscallArgs { syscall: Syscall::Stat, arg0: 0, arg1: 0, arg2: 0 }),
{
    SyscallArgs::new(Syscall::Stat, 0, 0, 0)
}

/// The call that ends the caller with the exit code `code`.
pub fn sys_exit(code: u64) -> (args: SyscallArgs)
    ensures
        args == (SyscallArgs { syscall: Syscall::Exit, arg0: code, arg1: 0, arg2: 0 }),
{
    SyscallArgs::new(Syscall::Exit, code, 0, 0)
}

/// The call that waits for the process `pid`. The answer, read as a
/// signed number with [`exit_code`], is its exit code.
pub fn sys_wait_pid(pid: u16) -> (args: SyscallArgs)
    ensures
        args == (SyscallArgs { syscall: Syscall::WaitPid, arg0: pid as u64, arg1: 0, arg2: 0 }),
{
    SyscallArgs::new(Syscall::WaitPid, pid as u64, 0, 0)
}

/// Reads the answer to a wait: the exit code as a signed number.
pub fn exit_code(ret: u64) -> (code: i64)
    ensures
        code == ret as i64,
{
    ret as i64
}

/// The call that asks for the time. The answer is read with
/// [`time_answer`].
pub fn sys_time() -> (args: SyscallArgs)
    ensures
        args == (SyscallArgs { syscall: Syscall::Time, arg0: 0, arg1: 0, arg2: 0 }),
{
    SyscallArgs::new(Syscall::Time, 0, 0, 0)
}

/// Reads the answer to the call for the time: the moment that many
/// nanoseconds after the beginning of 1970; see [`time_of`].
pub fn time_answer(ret: u64) -> (t: Timestamp)
    ensures
        t == time_of(ret as i64),
{
    crate::time::from_nanos(ret as i64)
}

/// The call that starts the program whose name, `len` bytes long, stands
/// at the address `name`. The answer, read with [`pid_answer`], is the
/// identifier of the new process, or 0.
pub fn sys_spawn(name: u64, len: u64) -> (args: SyscallArgs)
    ensures
        args == (SyscallArgs { syscall: Syscall::Spawn, arg0: name, arg1: len, arg2: 0 }),
{
    SyscallArgs::new(Syscall::Spawn, name, len, 0)
}

/// Reads an answer that is the identifier of a process: its low sixteen
/// bits.
pub fn pid_answer(ret: u64) -> (pid: u16)
    ensures
        pid == ret as u16,
{
    ret as u16
}

/// The call that asks for the caller's identifier.
pub fn sys_get_pid() -> (args: SyscallArgs)
    ensures
        args == (SyscallArgs { syscall: Syscall::GetPid, arg0: 0, arg1: 0, arg2: 0 }),
{
    SyscallArgs::new(Syscall::GetPid, 0, 0, 0)
}

/// The call that kills the process `pid`.
pub fn sys_kill(pid: u16) -> (args: SyscallArgs)
    ensures
        args == (SyscallArgs { syscall: Syscall::Kill, arg0: pid as u64, arg1: 0, arg2: 0 }),
{
    SyscallArgs::new(Syscall::Kill, pid as u64, 0, 0)
}

/// The call that forks the caller. The answer, read with
/// [`pid_answer`], is 0 in the child and the child's identifier in the
/// parent.
pub fn sys_fork() -> (args: SyscallArgs)
    ensures
        args == (SyscallArgs { syscall: Syscall::Fork, arg0: 0, arg1: 0, arg2: 0 }),
{
    SyscallArgs::new(Syscall::Fork, 0, 0, 0)
}

/// The call that makes a semaphore with `value` units under `key`. The
/// answer is read with [`done`].
pub fn sys_new_sem(key: u32, value: u64) -> (args: SyscallArgs)
    ensures
        args == (SyscallArgs { syscall: Syscall::Sem, arg0: 0, arg1: key as u64, arg2: value }),
{
    SyscallArgs::new(Syscall::Sem, 0, key as u64, value)
}

/// The call that drops the semaphore under `key`. The answer is read
/// with [`done`].
pub fn sys_del_sem(key: u32) -> (args: SyscallArgs)
    ensures
        args == (SyscallArgs { syscall: Syscall::Sem, arg0: 1, arg1: key as u64, arg2: 0 }),
{
    SyscallArgs::new(Syscall::Sem, 1, key as u64, 0)
}

/// The call that signals the semaphore under `key`.
pub fn sys_signal_sem(key: u32) -> (args: SyscallArgs)
    ensures
        args == (SyscallArgs { syscall: Syscall::Sem, arg0: 2, arg1: key as u64, arg2: 0 }),
{
    SyscallArgs::new(Syscall::Sem, 2, key as u64, 0)
}

/// The call that waits on the semaphore under `key`.
pub fn sys_wait_sem(key: u32) -> (args: SyscallArgs)
    ensures
        args == (SyscallArgs { syscall: Syscall::Sem, arg0: 3, arg1: key as u64, arg2: 0 }),
{
    SyscallArgs::new(Syscall::Sem, 3, key as u64, 0)
}

/// Reads an answer that says whether the call was carried out: it was if
/// the answer is 0.
pub fn done(ret: u64) -> (ok: bool)
    ensures
        ok == (ret == 0),
{
    ret == 0
}

/// The call that moves the end of the heap to `addr`, or asks where it
/// is if no address is given. The answer is read with [`heap_end`].
pub fn sys_brk(addr: Option<u64>) -> (args: SyscallArgs)
    ensures
        args == (SyscallArgs {
            syscall: Syscall::Brk,
            arg0: match addr {
                Some(a) => a,
                None => 0,
            },
            arg1: 0,
            arg2: 0,
        }),
{
    let a = match addr {
        Some(a) => a,
        None => 0,
    };
    SyscallArgs::new(Syscall::Brk, a, 0, 0)
}

/// Reads the answer to the heap call: the address at which the heap
/// ends, unless the kernel refused with all bits set.
pub fn heap_end(ret: u64) -> (end: Option<u64>)
    ensures
        end == if ret == u64::MAX {
            None
        } else {
            Some(ret)
        },
{
    if ret == u64::MAX {
        None
    } else {
        Some(ret)
    }
}

} // verus!
