use kproc::boot::{BootInfo, MemoryRegion};
use kproc::context::{ProcessContext, Selectors};
use arrayvec::ArrayVec;
use kproc::apps::App;
use kproc::manager::ProcessManager;
use kproc::pid::ProcessId;
use kproc::proc::{current_pid, init, switch, REFUSED};
use kproc::process::ProgramStatus;
use kproc::syscall::{
    dispatcher, finish_allocate, Action, Fetch, MemLayout, Syscall, SyscallArgs, SyscallInput,
};
use kproc::time::Timestamp;
use kproc::user::{
    byte_count, done, exit_code, heap_end, load_call, pid_answer, sys_allocate, sys_brk,
    sys_deallocate, sys_del_sem, sys_exit, sys_fork, sys_get_pid, sys_kill, sys_list_app,
    sys_new_sem, sys_read, sys_signal_sem, sys_spawn, sys_stat, sys_time, sys_wait_pid,
    sys_wait_sem, sys_write, time_answer,
};
use kproc::vm::{ElfImage, Segment, PAGE_SIZE};

fn boot() -> ProcessManager {
    let image = ElfImage {
        entry: 0x40_0000,
        segments: vec![Segment { start: 0x40_0000, size: 0x1000, writable: true }],
    };
    let mut apps: ArrayVec<App, 16> = ArrayVec::new();
    apps.push(App { name: String::from("fork"), image });
    init(BootInfo {
        memory_map: [MemoryRegion { first_frame: 16, frames: 32, usable: true }].into_iter().collect(),
        physical_memory_offset: 0,
        loaded_apps: Some(apps),
        log_level: String::from("info"),
        kernel_pages: ArrayVec::new(),
        user_selectors: Selectors { code: 0x23, data: 0x1b },
        heap_max_pages: 4,
    })
}

fn nothing() -> SyscallInput {
    SyscallInput { bytes: Vec::new(), now: Timestamp { secs: 0, nanos: 0 }, layout: None }
}

fn bytes(text: &[u8]) -> SyscallInput {
    SyscallInput { bytes: text.to_vec(), now: Timestamp { secs: 0, nanos: 0 }, layout: None }
}

fn call(m: &mut ProcessManager, ctx: &mut ProcessContext, args: SyscallArgs) -> u64 {
    call_with(m, ctx, args, &nothing())
}

fn call_with(m: &mut ProcessManager, ctx: &mut ProcessContext, args: SyscallArgs, input: &SyscallInput) -> u64 {
    load_call(ctx, &args);
    let action = dispatcher(m, ctx, input);
    assert!(matches!(action, Action::Nothing));
    ctx.regs.rax
}

fn run(m: &mut ProcessManager, ctx: &mut ProcessContext, pid: u16) {
    let mut turns = 0;
    while current_pid(m).0 != pid {
        switch(m, ctx);
        turns += 1;
        assert!(turns < 64);
    }
}

fn started() -> (ProcessManager, ProcessContext) {
    let mut m = boot();
    let mut ctx = ProcessContext::new();
    assert_eq!(call_with(&mut m, &mut ctx, sys_spawn(0x5000, 4), &bytes(b"fork")), 2);
    run(&mut m, &mut ctx, 2);
    (m, ctx)
}

#[test]
fn numbers_name_calls_and_calls_have_numbers() {
    let table = [
        (0u64, Syscall::Read),
        (1, Syscall::Write),
        (12, Syscall::Brk),
        (39, Syscall::GetPid),
        (58, Syscall::Fork),
        (59, Syscall::Spawn),
        (60, Syscall::Exit),
        (61, Syscall::WaitPid),
        (62, Syscall::Kill),
        (66, Syscall::Sem),
        (201, Syscall::Time),
        (65531, Syscall::ListApp),
        (65532, Syscall::Stat),
        (65533, Syscall::Allocate),
        (65534, Syscall::Deallocate),
        (65535, Syscall::Unknown),
    ];
    for (number, syscall) in table {
        assert_eq!(Syscall::from(number), syscall);
        assert_eq!(syscall.to_number(), number);
    }
    assert_eq!(Syscall::from(2), Syscall::Unknown);
    assert_eq!(Syscall::from(u64::MAX), Syscall::Unknown);
}

#[test]
fn the_kernel_reads_the_call_that_the_program_loaded() {
    let mut ctx = ProcessContext::new();
    ctx.regs.rbx = 5;
    let args = SyscallArgs::new(Syscall::Write, 1, 0x7000, 12);
    load_call(&mut ctx, &args);
    assert_eq!((ctx.regs.rax, ctx.regs.rdi, ctx.regs.rsi, ctx.regs.rdx, ctx.regs.rbx), (1, 1, 0x7000, 12, 5));
    assert_eq!(SyscallArgs::from_context(&ctx), args);
    assert_eq!(args.wants(), Fetch::Bytes { addr: 0x7000, len: 12 });
    assert_eq!(sys_spawn(0x900, 4).wants(), Fetch::Bytes { addr: 0x900, len: 4 });
    assert_eq!(sys_time().wants(), Fetch::Clock);
    assert_eq!(sys_allocate(0x77).wants(), Fetch::Layout { addr: 0x77 });
    assert_eq!(sys_deallocate(0x10, 0x77).wants(), Fetch::Layout { addr: 0x77 });
    assert_eq!(sys_read(0, 1, 2).wants(), Fetch::Nothing);
    assert_eq!(sys_fork().wants(), Fetch::Nothing);
}

#[test]
fn an_unknown_call_is_answered_zero_and_changes_nothing() {
    let (mut m, mut ctx) = started();
    ctx.regs.rax = 777;
    ctx.regs.rdi = 1;
    let before = ctx;
    let action = dispatcher(&mut m, &mut ctx, &nothing());
    assert!(matches!(action, Action::Nothing));
    assert_eq!(ctx.regs.rax, 0);
    ctx.regs.rax = 777;
    assert_eq!(ctx, before);
    ctx.regs.rax = 65535;
    dispatcher(&mut m, &mut ctx, &nothing());
    assert_eq!(ctx.regs.rax, 0);
    assert_eq!(current_pid(&m), ProcessId(2));
    assert_eq!(m.processes.len(), 2);
}

#[test]
fn spawn_by_call_answers_the_identifier_or_zero() {
    let mut m = boot();
    let mut ctx = ProcessContext::new();
    assert_eq!(call_with(&mut m, &mut ctx, sys_spawn(0x5000, 4), &bytes(b"nope")), 0);
    assert_eq!(m.processes.len(), 1);
    assert_eq!(call_with(&mut m, &mut ctx, sys_spawn(0x5000, 2), &bytes(&[0xff, 0xfe])), 0);
    assert_eq!(call_with(&mut m, &mut ctx, sys_spawn(0x5000, 4), &bytes(b"fork")), 2);
    assert_eq!(pid_answer(ctx.regs.rax), 2);
    assert_eq!(current_pid(&m), ProcessId(1));
    assert_eq!(m.get_proc(ProcessId(2)).map(|p| p.status), Some(ProgramStatus::Ready));
    assert_eq!(pid_answer(0x1_0002), 2);
}

#[test]
fn get_pid_answers_the_caller() {
    let (mut m, mut ctx) = started();
    assert_eq!(call(&mut m, &mut ctx, sys_get_pid()), 2);
    run(&mut m, &mut ctx, 1);
    assert_eq!(call(&mut m, &mut ctx, sys_get_pid()), 1);
}

#[test]
fn fork_wait_and_exit_by_call() {
    let (mut m, mut ctx) = started();
    ctx.regs.r13 = 32;
    load_call(&mut ctx, &sys_fork());
    assert!(matches!(dispatcher(&mut m, &mut ctx, &nothing()), Action::Nothing));
    run(&mut m, &mut ctx, 3);
    assert_eq!(pid_answer(ctx.regs.rax), 0);
    assert_eq!(ctx.regs.r13, 32);
    ctx.regs.r13 += 32;
    let code = ctx.regs.r13;
    load_call(&mut ctx, &sys_exit(code));
    assert!(matches!(dispatcher(&mut m, &mut ctx, &nothing()), Action::Nothing));
    assert_ne!(current_pid(&m), ProcessId(3));
    run(&mut m, &mut ctx, 2);
    let child = pid_answer(ctx.regs.rax);
    assert_eq!(child, 3);
    assert_eq!(ctx.regs.r13, 32);
    let ret = call(&mut m, &mut ctx, sys_wait_pid(child));
    assert_eq!(exit_code(ret), 64);
    assert_eq!(ctx.regs.r13 + 1024, 1056);
    assert_eq!(call(&mut m, &mut ctx, sys_wait_pid(child)), REFUSED);
    assert_eq!(exit_code(REFUSED), -1);
}

#[test]
fn exit_codes_keep_their_sign() {
    let (mut m, mut ctx) = started();
    load_call(&mut ctx, &sys_exit(-5i64 as u64));
    dispatcher(&mut m, &mut ctx, &nothing());
    assert_eq!(current_pid(&m), ProcessId(1));
    assert_eq!(m.get_exit_code(ProcessId(2)), Some(-5));
    assert_eq!(exit_code(call(&mut m, &mut ctx, sys_wait_pid(2))), -5);
}

#[test]
fn kill_of_the_kernel_process_is_ignored() {
    let (mut m, mut ctx) = started();
    let before = ctx.regs.rbx;
    load_call(&mut ctx, &sys_kill(1));
    assert!(matches!(dispatcher(&mut m, &mut ctx, &nothing()), Action::Nothing));
    assert_eq!(m.get_proc(ProcessId(1)).map(|p| p.status), Some(ProgramStatus::Ready));
    assert_eq!(current_pid(&m), ProcessId(2));
    assert_eq!(m.get_proc(ProcessId(2)).map(|p| p.status), Some(ProgramStatus::Running));
    assert_eq!(ctx.regs.rbx, before);
    load_call(&mut ctx, &SyscallArgs::new(Syscall::Kill, 0x1_0001, 0, 0));
    dispatcher(&mut m, &mut ctx, &nothing());
    assert_eq!(m.processes.len(), 2);
    assert_eq!(m.get_exit_code(ProcessId(1)), None);
}

#[test]
fn kill_by_call_ends_the_target() {
    let (mut m, mut ctx) = started();
    load_call(&mut ctx, &sys_fork());
    dispatcher(&mut m, &mut ctx, &nothing());
    run(&mut m, &mut ctx, 2);
    load_call(&mut ctx, &sys_kill(3));
    dispatcher(&mut m, &mut ctx, &nothing());
    assert_eq!(current_pid(&m), ProcessId(2));
    assert_eq!(exit_code(call(&mut m, &mut ctx, sys_wait_pid(3))), 0xdead);
}

#[test]
fn the_heap_call_grows_and_shrinks_the_heap() {
    let (mut m, mut ctx) = started();
    let h0 = heap_end(call(&mut m, &mut ctx, sys_brk(None))).expect("heap");
    assert_eq!(h0, 0x401 * PAGE_SIZE);
    assert_eq!(heap_end(call(&mut m, &mut ctx, sys_brk(Some(h0 + 4096)))), Some(h0 + 4096));
    assert_eq!(heap_end(call(&mut m, &mut ctx, sys_brk(None))), Some(h0 + 4096));
    assert_eq!(heap_end(call(&mut m, &mut ctx, sys_brk(Some(h0 + 5 * 4096)))), Some(h0 + 4096));
    assert_eq!(heap_end(call(&mut m, &mut ctx, sys_brk(Some(h0)))), Some(h0));
    run(&mut m, &mut ctx, 1);
    assert_eq!(heap_end(call(&mut m, &mut ctx, sys_brk(None))), Some(0));
    assert_eq!(heap_end(call(&mut m, &mut ctx, sys_brk(Some(4096)))), Some(0));
    assert_eq!(heap_end(u64::MAX - 1), Some(u64::MAX - 1));
    assert_eq!(heap_end(u64::MAX), None);
}

#[test]
fn semaphores_by_call() {
    let (mut m, mut ctx) = started();
    assert!(done(call(&mut m, &mut ctx, sys_new_sem(7, 1))));
    assert!(!done(call(&mut m, &mut ctx, sys_new_sem(7, 1))));
    assert!(done(call(&mut m, &mut ctx, sys_wait_sem(7))));
    assert_eq!(current_pid(&m), ProcessId(2));
    load_call(&mut ctx, &sys_wait_sem(7));
    dispatcher(&mut m, &mut ctx, &nothing());
    assert_eq!(current_pid(&m), ProcessId(1));
    assert_eq!(m.get_proc(ProcessId(2)).map(|p| p.status), Some(ProgramStatus::Blocked));
    m.wake_up(ProcessId(2), 0);
    run(&mut m, &mut ctx, 2);
    assert_eq!(ctx.regs.rax, 0);
    assert!(done(call(&mut m, &mut ctx, sys_signal_sem(7))));
    assert!(done(call(&mut m, &mut ctx, sys_signal_sem(7))));
    assert!(done(call(&mut m, &mut ctx, sys_del_sem(7))));
    assert!(!done(call(&mut m, &mut ctx, sys_del_sem(7))));
    assert_eq!(call(&mut m, &mut ctx, sys_signal_sem(7)), 1);
    assert_eq!(call(&mut m, &mut ctx, sys_wait_sem(7)), 1);
    assert_eq!(call(&mut m, &mut ctx, SyscallArgs::new(Syscall::Sem, 4, 7, 0)), u64::MAX);
    assert_eq!(call(&mut m, &mut ctx, SyscallArgs::new(Syscall::Sem, 0, 0x1_0000_0007, 3)), 0);
    assert_eq!(call(&mut m, &mut ctx, sys_new_sem(7, 3)), 1);
}

#[test]
fn write_appends_to_the_output() {
    let (mut m, mut ctx) = started();
    let n = call_with(&mut m, &mut ctx, sys_write(1, 0x6000, 5), &bytes(b"hello"));
    assert_eq!(byte_count(n), Some(5));
    let n = call_with(&mut m, &mut ctx, sys_write(2, 0x6000, 2), &bytes(b"!\n"));
    assert_eq!(byte_count(n), Some(2));
    assert_eq!(m.output, b"hello!\n".to_vec());
    let n = call_with(&mut m, &mut ctx, sys_write(1, 0x6000, 0), &bytes(b""));
    assert_eq!(byte_count(n), Some(0));
}

#[test]
fn write_refuses_bad_descriptors_and_short_buffers() {
    let (mut m, mut ctx) = started();
    for fd in [0u8, 3, 255] {
        let n = call_with(&mut m, &mut ctx, sys_write(fd, 0x6000, 2), &bytes(b"no"));
        assert_eq!(byte_count(n), None);
        assert_eq!(n, u64::MAX);
    }
    let n = call_with(&mut m, &mut ctx, sys_write(1, 0x6000, 3), &bytes(b"no"));
    assert_eq!(byte_count(n), None);
    assert!(m.output.is_empty());
    assert_eq!(byte_count(i64::MAX as u64), Some(i64::MAX as u64));
    assert_eq!(byte_count(i64::MAX as u64 + 1), None);
}

#[test]
fn read_takes_the_oldest_input() {
    let (mut m, mut ctx) = started();
    m.input.extend(b"abcdef".iter());
    load_call(&mut ctx, &sys_read(0, 0x6000, 4));
    match dispatcher(&mut m, &mut ctx, &nothing()) {
        Action::CopyToUser { addr, bytes } => {
            assert_eq!(addr, 0x6000);
            assert_eq!(bytes, b"abcd".to_vec());
        }
        _ => panic!("nothing to copy"),
    }
    assert_eq!(byte_count(ctx.regs.rax), Some(4));
    load_call(&mut ctx, &sys_read(0, 0x6100, 4));
    match dispatcher(&mut m, &mut ctx, &nothing()) {
        Action::CopyToUser { addr, bytes } => {
            assert_eq!(addr, 0x6100);
            assert_eq!(bytes, b"ef".to_vec());
        }
        _ => panic!("nothing to copy"),
    }
    assert_eq!(byte_count(ctx.regs.rax), Some(2));
    load_call(&mut ctx, &sys_read(0, 0x6100, 4));
    match dispatcher(&mut m, &mut ctx, &nothing()) {
        Action::CopyToUser { bytes, .. } => assert!(bytes.is_empty()),
        _ => panic!("nothing to copy"),
    }
    assert_eq!(byte_count(ctx.regs.rax), Some(0));
}

#[test]
fn read_refuses_descriptors_of_output() {
    let (mut m, mut ctx) = started();
    m.input.extend(b"abc".iter());
    for fd in [1u8, 2, 3] {
        load_call(&mut ctx, &sys_read(fd, 0x6000, 4));
        match dispatcher(&mut m, &mut ctx, &nothing()) {
            Action::CopyToUser { bytes, .. } => assert!(bytes.is_empty()),
            _ => panic!("nothing to copy"),
        }
        assert_eq!(byte_count(ctx.regs.rax), None);
    }
    assert_eq!(m.input.len(), 3);
}

#[test]
fn the_clock_call_answers_nanoseconds() {
    let (mut m, mut ctx) = started();
    let now = Timestamp { secs: 1_431_648_000, nanos: 7 };
    let input = SyscallInput { bytes: Vec::new(), now, layout: None };
    let ret = call_with(&mut m, &mut ctx, sys_time(), &input);
    assert_eq!(ret, 1_431_648_000_000_000_007);
    assert_eq!(time_answer(ret), now);
    let early = SyscallInput { bytes: Vec::new(), now: Timestamp { secs: -2, nanos: 0 }, layout: None };
    let ret = call_with(&mut m, &mut ctx, sys_time(), &early);
    assert_eq!(ret as i64, -2_000_000_000);
    assert_eq!(time_answer(ret), Timestamp { secs: -2, nanos: 0 });
}

#[test]
fn the_lists_are_left_to_show() {
    let (mut m, mut ctx) = started();
    let before = ctx;
    load_call(&mut ctx, &sys_list_app());
    match dispatcher(&mut m, &mut ctx, &nothing()) {
        Action::ShowApps { text } => assert_eq!(text, ">>> App list: fork"),
        _ => panic!("no list"),
    }
    load_call(&mut ctx, &sys_stat());
    match dispatcher(&mut m, &mut ctx, &nothing()) {
        Action::ShowProcesses { lines } => {
            let seen: Vec<(u16, ProgramStatus)> = lines.iter().map(|l| (l.pid.0, l.status)).collect();
            assert_eq!(seen, vec![(1, ProgramStatus::Ready), (2, ProgramStatus::Running)]);
        }
        _ => panic!("no list"),
    }
    assert_eq!(ctx.regs.rbx, before.regs.rbx);
    assert_eq!(ctx.regs.rax, Syscall::Stat.to_number());
}

#[test]
fn requests_for_memory_are_left_to_the_allocator() {
    let (mut m, mut ctx) = started();
    let layout = MemLayout { size: 64, align: 8 };
    let with = |layout: Option<MemLayout>| SyscallInput { bytes: Vec::new(), now: Timestamp { secs: 0, nanos: 0 }, layout };
    load_call(&mut ctx, &sys_allocate(0x7700));
    match dispatcher(&mut m, &mut ctx, &with(Some(layout))) {
        Action::Allocate { layout: asked } => assert_eq!(asked, layout),
        _ => panic!("no allocation"),
    }
    finish_allocate(&mut ctx, Some(0x9000));
    assert_eq!(ctx.regs.rax, 0x9000);
    finish_allocate(&mut ctx, None);
    assert_eq!(ctx.regs.rax, 0);
    load_call(&mut ctx, &sys_allocate(0x7700));
    assert!(matches!(dispatcher(&mut m, &mut ctx, &with(Some(MemLayout { size: 0, align: 8 }))), Action::Nothing));
    assert_eq!(ctx.regs.rax, 0);
    load_call(&mut ctx, &sys_allocate(0x7700));
    assert!(matches!(dispatcher(&mut m, &mut ctx, &with(None)), Action::Nothing));
    assert_eq!(ctx.regs.rax, 0);
    load_call(&mut ctx, &sys_deallocate(0x9000, 0x7700));
    match dispatcher(&mut m, &mut ctx, &with(Some(layout))) {
        Action::Deallocate { ptr, layout: given } => assert_eq!((ptr, given), (0x9000, layout)),
        _ => panic!("no deallocation"),
    }
    load_call(&mut ctx, &sys_deallocate(0, 0x7700));
    assert!(matches!(dispatcher(&mut m, &mut ctx, &with(Some(layout))), Action::Nothing));
    load_call(&mut ctx, &sys_deallocate(0x9000, 0x7700));
    assert!(matches!(dispatcher(&mut m, &mut ctx, &with(Some(MemLayout { size: 0, align: 1 }))), Action::Nothing));
    load_call(&mut ctx, &sys_deallocate(0x9000, 0x7700));
    assert!(matches!(dispatcher(&mut m, &mut ctx, &with(None)), Action::Nothing));
}
