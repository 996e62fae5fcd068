use kproc::boot::{BootInfo, MemoryRegion};
use kproc::context::{ProcessContext, Selectors, INITIAL_CPU_FLAGS};
use arrayvec::ArrayVec;
use kproc::apps::App;
use kproc::manager::ProcessManager;
use kproc::pid::ProcessId;
use kproc::proc::{
    brk, current_pid, elf_spawn, fork, handle_page_fault, init, kill, list_app, new_sem,
    page_fault, print_process_list, process_exit, remove_sem, sem_signal, sem_wait, spawn, switch,
    wait_no_block, wait_pid, FaultOutcome, KILLED, REFUSED,
};
use kproc::process::{EnvVar, ProgramStatus};
use kproc::vm::{ElfImage, Segment, PAGE_SIZE, STACK_INIT_TOP, STACK_TOP_PAGE};

const USER: Selectors = Selectors { code: 0x23, data: 0x1b };

fn image(entry: u64) -> ElfImage {
    ElfImage { entry, segments: vec![Segment { start: 0x40_0000, size: 0x2000, writable: true }] }
}

fn apps(named: &[(&str, u64)]) -> ArrayVec<App, 16> {
    let mut list = ArrayVec::new();
    for (name, entry) in named {
        list.push(App { name: String::from(*name), image: image(*entry) });
    }
    list
}

fn boot_with(frames: u64, heap_max: u64) -> ProcessManager {
    init(BootInfo {
        memory_map: [
            MemoryRegion { first_frame: 0, frames: 7, usable: false },
            MemoryRegion { first_frame: 7, frames, usable: true },
        ]
        .into_iter()
        .collect(),
        physical_memory_offset: 0xffff_8000_0000_0000,
        loaded_apps: Some(apps(&[("hello", 0x40_0000), ("fork", 0x40_0123)])),
        log_level: String::from("info"),
        kernel_pages: ArrayVec::new(),
        user_selectors: USER,
        heap_max_pages: heap_max,
    })
}

fn boot() -> ProcessManager {
    boot_with(64, 8)
}

fn status(m: &ProcessManager, pid: u16) -> Option<ProgramStatus> {
    m.get_proc(ProcessId(pid)).map(|p| p.status)
}

fn ready(m: &ProcessManager) -> Vec<u16> {
    m.ready_queue.iter().map(|p| p.0).collect()
}

fn saved_rax(m: &ProcessManager, pid: u16) -> u64 {
    m.get_proc(ProcessId(pid)).expect("process").context.regs.rax
}

fn run(m: &mut ProcessManager, ctx: &mut ProcessContext, pid: u16) {
    let mut turns = 0;
    while current_pid(m).0 != pid {
        switch(m, ctx);
        turns += 1;
        assert!(turns < 64, "process {} never runs", pid);
    }
}

fn check(m: &ProcessManager) {
    let cur = current_pid(m);
    assert_eq!(status(m, cur.0), Some(ProgramStatus::Running));
    let queue = ready(m);
    for row in m.processes.entries.iter() {
        let p = &row.value;
        assert_eq!(row.key, p.pid.0 as u64);
        let queued = queue.iter().filter(|q| **q == p.pid.0).count();
        match p.status {
            ProgramStatus::Running => assert_eq!(p.pid, cur),
            ProgramStatus::Ready => assert_eq!(queued, 1),
            _ => assert_eq!(queued, 0),
        }
        if p.status != ProgramStatus::Ready {
            assert_eq!(queued, 0);
        }
    }
    assert_eq!(queue.len(), m.processes.entries.iter().filter(|r| r.value.status == ProgramStatus::Ready).count());
}

#[test]
fn init_leaves_the_kernel_process_running_alone() {
    let m = boot();
    assert_eq!(current_pid(&m), ProcessId(1));
    assert_eq!(m.processes.len(), 1);
    assert_eq!(status(&m, 1), Some(ProgramStatus::Running));
    let kernel = m.get_proc(ProcessId(1)).expect("kernel");
    assert_eq!(kernel.name, "kernel");
    assert_eq!(kernel.parent, None);
    assert_eq!(kernel.pid, ProcessId(1));
    assert_eq!(kernel.context, ProcessContext::new());
    assert!(ready(&m).is_empty());
    assert_eq!(m.next_pid, 2);
    assert!(m.frames.has_available(64) && !m.frames.has_available(65));
    check(&m);
}

#[test]
fn spawn_makes_a_ready_process_with_the_next_identifier() {
    let mut m = boot();
    let pid = spawn(&mut m, "fork").expect("spawned");
    assert_eq!(pid, ProcessId(2));
    let p = m.get_proc(pid).expect("process");
    assert_eq!(p.name, "fork");
    assert_eq!(p.parent, Some(ProcessId(1)));
    assert_eq!(p.status, ProgramStatus::Ready);
    assert_eq!(p.exit_code, None);
    assert_eq!(p.context.stack_frame.instruction_pointer, 0x40_0123);
    assert_eq!(p.context.stack_frame.stack_pointer, STACK_INIT_TOP);
    assert_eq!(p.context.stack_frame.cpu_flags, INITIAL_CPU_FLAGS);
    assert_eq!(p.context.stack_frame.code_segment, 0x23);
    assert_eq!(p.context.stack_frame.stack_segment, 0x1b);
    assert_eq!(p.context.regs.rax, 0);
    assert_eq!(p.vm.page_table.table.len(), 2);
    assert_eq!(p.data.sem_set, 1);
    assert_eq!(ready(&m), vec![2]);
    assert_eq!(spawn(&mut m, "hello"), Ok(ProcessId(3)));
    assert_eq!(ready(&m), vec![2, 3]);
    assert_eq!(m.next_pid, 4);
    check(&m);
}

#[test]
fn spawn_of_an_unknown_name_is_refused() {
    let mut m = boot();
    assert_eq!(spawn(&mut m, "nope"), Err(String::from("App not found: nope")));
    assert_eq!(m.processes.len(), 1);
    assert_eq!(m.next_pid, 2);
    m.app_list = None;
    assert_eq!(spawn(&mut m, "hello"), Err(String::from("App not found: hello")));
    check(&m);
}

#[test]
fn spawn_without_frames_is_refused() {
    let mut m = boot_with(1, 8);
    assert_eq!(spawn(&mut m, "hello"), Err(String::from("Failed to spawn: hello")));
    assert_eq!(m.processes.len(), 1);
    assert_eq!(m.next_pid, 2);
    assert!(m.frames.has_available(1));
    assert!(m.app_list.is_some());
    let name = String::from("direct");
    assert_eq!(elf_spawn(&mut m, name, &image(0)), Err(String::from("Failed to spawn: direct")));
    check(&m);
}

#[test]
fn identifiers_run_out_after_sixteen_bits() {
    let mut m = boot();
    m.next_pid = 65535;
    assert_eq!(spawn(&mut m, "hello"), Ok(ProcessId(65535)));
    assert_eq!(m.next_pid, 65536);
    assert_eq!(spawn(&mut m, "hello"), Err(String::from("Failed to spawn: hello")));
    assert_eq!(m.processes.len(), 2);
}

#[test]
fn a_tick_sends_the_running_process_to_the_end_of_the_queue() {
    let mut m = boot();
    spawn(&mut m, "hello").expect("spawned");
    spawn(&mut m, "fork").expect("spawned");
    let mut ctx = ProcessContext::new();
    ctx.regs.rbx = 0x1111;
    switch(&mut m, &mut ctx);
    assert_eq!(current_pid(&m), ProcessId(2));
    assert_eq!(ready(&m), vec![3, 1]);
    assert_eq!(ctx.stack_frame.instruction_pointer, 0x40_0000);
    assert_eq!(ctx.regs.rbx, 0);
    assert_eq!(m.get_proc(ProcessId(1)).expect("kernel").context.regs.rbx, 0x1111);
    assert_eq!(m.get_proc(ProcessId(1)).expect("kernel").ticks_passed, 1);
    check(&m);
    ctx.regs.rbx = 0x2222;
    switch(&mut m, &mut ctx);
    assert_eq!(current_pid(&m), ProcessId(3));
    assert_eq!(ready(&m), vec![1, 2]);
    assert_eq!(ctx.stack_frame.instruction_pointer, 0x40_0123);
    switch(&mut m, &mut ctx);
    assert_eq!(current_pid(&m), ProcessId(1));
    assert_eq!(ctx.regs.rbx, 0x1111);
    switch(&mut m, &mut ctx);
    assert_eq!(current_pid(&m), ProcessId(2));
    assert_eq!(ctx.regs.rbx, 0x2222);
    check(&m);
}

#[test]
fn a_tick_with_nobody_else_ready_keeps_the_process_running() {
    let mut m = boot();
    let mut ctx = ProcessContext::new();
    ctx.regs.rcx = 9;
    switch(&mut m, &mut ctx);
    assert_eq!(current_pid(&m), ProcessId(1));
    assert_eq!(ctx.regs.rcx, 9);
    assert!(ready(&m).is_empty());
    check(&m);
}

#[test]
fn round_robin_gives_everybody_the_same_number_of_turns() {
    let mut m = boot();
    for _ in 0..4 {
        spawn(&mut m, "hello").expect("spawned");
    }
    let mut ctx = ProcessContext::new();
    switch(&mut m, &mut ctx);
    switch(&mut m, &mut ctx);
    let processes = 5;
    let rounds = 7;
    let mut turns = [0usize; 7];
    for _ in 0..rounds * processes {
        switch(&mut m, &mut ctx);
        turns[current_pid(&m).0 as usize] += 1;
    }
    assert_eq!(&turns[1..6], &[7, 7, 7, 7, 7]);
    assert_eq!(current_pid(&m), ProcessId(3));
    check(&m);
}

#[test]
fn fork_gives_zero_to_the_child_and_the_child_to_the_parent() {
    let mut m = boot();
    spawn(&mut m, "fork").expect("spawned");
    let mut ctx = ProcessContext::new();
    run(&mut m, &mut ctx, 2);
    ctx.regs.rax = 58;
    ctx.regs.r12 = 32;
    fork(&mut m, &mut ctx);
    assert_eq!(m.processes.len(), 3);
    assert_eq!(current_pid(&m), ProcessId(1));
    assert_eq!(ready(&m), vec![3, 2]);
    assert_eq!(saved_rax(&m, 3), 0);
    assert_eq!(saved_rax(&m, 2), 3);
    let child = m.get_proc(ProcessId(3)).expect("child");
    assert_eq!(child.parent, Some(ProcessId(2)));
    assert_eq!(child.name, "fork");
    assert_eq!(child.context.regs.r12, 32);
    assert_eq!(child.data.sem_set, m.get_proc(ProcessId(2)).expect("parent").data.sem_set);
    assert_eq!(child.vm.page_table.table.len(), 2);
    check(&m);
    run(&mut m, &mut ctx, 3);
    assert_eq!(ctx.regs.rax, 0);
    assert_eq!(ctx.regs.r12, 32);
    run(&mut m, &mut ctx, 2);
    assert_eq!(ctx.regs.rax, 3);
    assert_eq!(ctx.regs.r12, 32);
    check(&m);
}

#[test]
fn fork_without_frames_is_refused() {
    let mut m = boot_with(3, 8);
    spawn(&mut m, "fork").expect("spawned");
    let mut ctx = ProcessContext::new();
    run(&mut m, &mut ctx, 2);
    fork(&mut m, &mut ctx);
    assert_eq!(m.processes.len(), 2);
    assert_eq!(m.next_pid, 3);
    run(&mut m, &mut ctx, 2);
    assert_eq!(ctx.regs.rax, REFUSED);
    check(&m);
}

#[test]
fn fork_then_exit_then_wait_hands_the_code_over() {
    let mut m = boot();
    spawn(&mut m, "fork").expect("spawned");
    let mut ctx = ProcessContext::new();
    run(&mut m, &mut ctx, 2);
    fork(&mut m, &mut ctx);
    run(&mut m, &mut ctx, 3);
    assert_eq!(ctx.regs.rax, 0);
    process_exit(&mut m, 64, &mut ctx);
    assert_eq!(status(&m, 3), Some(ProgramStatus::Dead));
    assert_eq!(wait_no_block(&m, ProcessId(3)), Some(64));
    assert_eq!(m.get_proc(ProcessId(3)).expect("zombie").vm.page_table.table.len(), 0);
    check(&m);
    run(&mut m, &mut ctx, 2);
    assert_eq!(ctx.regs.rax, 3);
    wait_pid(&mut m, ProcessId(3), &mut ctx);
    assert_eq!(current_pid(&m), ProcessId(2));
    assert_eq!(ctx.regs.rax, 64);
    assert_eq!(status(&m, 3), None);
    wait_pid(&mut m, ProcessId(3), &mut ctx);
    assert_eq!(ctx.regs.rax, REFUSED);
    assert_eq!(wait_no_block(&m, ProcessId(3)), None);
    check(&m);
}

#[test]
fn wait_blocks_until_the_child_exits() {
    let mut m = boot();
    spawn(&mut m, "fork").expect("spawned");
    let mut ctx = ProcessContext::new();
    run(&mut m, &mut ctx, 2);
    fork(&mut m, &mut ctx);
    run(&mut m, &mut ctx, 2);
    wait_pid(&mut m, ProcessId(3), &mut ctx);
    assert_eq!(status(&m, 2), Some(ProgramStatus::Blocked));
    assert_eq!(m.get_proc(ProcessId(2)).expect("parent").waiting_for, Some(ProcessId(3)));
    assert!(!ready(&m).contains(&2));
    check(&m);
    for _ in 0..5 {
        switch(&mut m, &mut ctx);
        assert_ne!(current_pid(&m), ProcessId(2));
    }
    run(&mut m, &mut ctx, 3);
    process_exit(&mut m, 64, &mut ctx);
    assert_eq!(status(&m, 3), None);
    assert_eq!(status(&m, 2), Some(ProgramStatus::Ready));
    assert_eq!(m.get_proc(ProcessId(2)).expect("parent").waiting_for, None);
    check(&m);
    run(&mut m, &mut ctx, 2);
    assert_eq!(ctx.regs.rax, 64);
    wait_pid(&mut m, ProcessId(3), &mut ctx);
    assert_eq!(ctx.regs.rax, REFUSED);
    check(&m);
}

#[test]
fn wait_refuses_what_cannot_be_waited_for() {
    let mut m = boot();
    spawn(&mut m, "hello").expect("spawned");
    let mut ctx = ProcessContext::new();
    wait_pid(&mut m, ProcessId(9), &mut ctx);
    assert_eq!(ctx.regs.rax, REFUSED);
    ctx.regs.rax = 0;
    wait_pid(&mut m, ProcessId(2), &mut ctx);
    assert_eq!(ctx.regs.rax, REFUSED);
    assert_eq!(current_pid(&m), ProcessId(1));
    run(&mut m, &mut ctx, 2);
    ctx.regs.rax = 0;
    wait_pid(&mut m, ProcessId(2), &mut ctx);
    assert_eq!(ctx.regs.rax, REFUSED);
    assert_eq!(current_pid(&m), ProcessId(2));
    check(&m);
}

#[test]
fn the_kernel_process_collects_what_it_started() {
    let mut m = boot();
    spawn(&mut m, "hello").expect("spawned");
    let mut ctx = ProcessContext::new();
    run(&mut m, &mut ctx, 2);
    process_exit(&mut m, -3, &mut ctx);
    assert_eq!(current_pid(&m), ProcessId(1));
    assert_eq!(wait_no_block(&m, ProcessId(2)), Some(-3));
    assert_eq!(wait_no_block(&m, ProcessId(2)), Some(-3));
    wait_pid(&mut m, ProcessId(2), &mut ctx);
    assert_eq!(ctx.regs.rax as i64, -3);
    assert_eq!(wait_no_block(&m, ProcessId(2)), None);
    assert_eq!(m.processes.len(), 1);
    assert!(m.frames.has_available(64));
    check(&m);
}

#[test]
fn exit_hands_children_to_the_kernel_process() {
    let mut m = boot();
    spawn(&mut m, "fork").expect("spawned");
    let mut ctx = ProcessContext::new();
    run(&mut m, &mut ctx, 2);
    fork(&mut m, &mut ctx);
    run(&mut m, &mut ctx, 2);
    fork(&mut m, &mut ctx);
    run(&mut m, &mut ctx, 2);
    process_exit(&mut m, 7, &mut ctx);
    assert_eq!(status(&m, 2), Some(ProgramStatus::Dead));
    assert_eq!(m.get_proc(ProcessId(3)).expect("child").parent, Some(ProcessId(1)));
    assert_eq!(m.get_proc(ProcessId(4)).expect("child").parent, Some(ProcessId(1)));
    check(&m);
}

#[test]
fn a_process_without_a_parent_leaves_at_once() {
    let mut m = boot();
    let pid = m.spawn(&image(0x40_0000), String::from("loner"), None, Vec::new()).expect("spawned");
    let mut ctx = ProcessContext::new();
    run(&mut m, &mut ctx, pid.0);
    process_exit(&mut m, 1, &mut ctx);
    assert_eq!(status(&m, pid.0), None);
    assert_eq!(wait_no_block(&m, pid), None);
    assert!(m.frames.has_available(64));
    check(&m);
}

#[test]
fn the_kernel_process_does_not_exit() {
    let mut m = boot();
    let mut ctx = ProcessContext::new();
    ctx.regs.rax = 60;
    process_exit(&mut m, 0, &mut ctx);
    assert_eq!(status(&m, 1), Some(ProgramStatus::Running));
    assert_eq!(ctx.regs.rax, 60);
    kill(&mut m, ProcessId(1), &mut ctx);
    assert_eq!(status(&m, 1), Some(ProgramStatus::Running));
    m.kill(ProcessId(1), 5);
    assert_eq!(status(&m, 1), Some(ProgramStatus::Running));
    m.block(ProcessId(1));
    assert_eq!(status(&m, 1), Some(ProgramStatus::Running));
    check(&m);
}

#[test]
fn kill_ends_another_process_with_the_code_for_the_killed() {
    let mut m = boot();
    spawn(&mut m, "hello").expect("spawned");
    spawn(&mut m, "fork").expect("spawned");
    let mut ctx = ProcessContext::new();
    run(&mut m, &mut ctx, 3);
    ctx.regs.rax = 77;
    kill(&mut m, ProcessId(2), &mut ctx);
    assert_eq!(current_pid(&m), ProcessId(3));
    assert_eq!(ctx.regs.rax, 77);
    assert_eq!(status(&m, 2), Some(ProgramStatus::Dead));
    assert_eq!(wait_no_block(&m, ProcessId(2)), Some(KILLED));
    assert_eq!(KILLED, 0xdead);
    assert!(!ready(&m).contains(&2));
    kill(&mut m, ProcessId(2), &mut ctx);
    assert_eq!(wait_no_block(&m, ProcessId(2)), Some(KILLED));
    kill(&mut m, ProcessId(40), &mut ctx);
    assert_eq!(m.processes.len(), 3);
    check(&m);
}

#[test]
fn kill_of_oneself_gives_the_processor_away() {
    let mut m = boot();
    spawn(&mut m, "hello").expect("spawned");
    let mut ctx = ProcessContext::new();
    run(&mut m, &mut ctx, 2);
    kill(&mut m, ProcessId(2), &mut ctx);
    assert_eq!(current_pid(&m), ProcessId(1));
    assert_eq!(wait_no_block(&m, ProcessId(2)), Some(KILLED));
    check(&m);
}

#[test]
fn kill_wakes_those_who_wait_in_the_order_of_the_table() {
    let mut m = boot();
    spawn(&mut m, "hello").expect("spawned");
    spawn(&mut m, "hello").expect("spawned");
    spawn(&mut m, "hello").expect("spawned");
    let mut ctx = ProcessContext::new();
    run(&mut m, &mut ctx, 4);
    wait_pid(&mut m, ProcessId(2), &mut ctx);
    run(&mut m, &mut ctx, 3);
    wait_pid(&mut m, ProcessId(2), &mut ctx);
    assert_eq!(status(&m, 3), Some(ProgramStatus::Blocked));
    assert_eq!(status(&m, 4), Some(ProgramStatus::Blocked));
    run(&mut m, &mut ctx, 1);
    assert_eq!(ready(&m), vec![2]);
    kill(&mut m, ProcessId(2), &mut ctx);
    assert_eq!(status(&m, 2), None);
    assert_eq!(ready(&m), vec![3, 4]);
    assert_eq!(saved_rax(&m, 3), KILLED as u64);
    assert_eq!(saved_rax(&m, 4), KILLED as u64);
    check(&m);
}

#[test]
fn a_killed_waiter_leaves_the_semaphore() {
    let mut m = boot();
    spawn(&mut m, "fork").expect("spawned");
    let mut ctx = ProcessContext::new();
    run(&mut m, &mut ctx, 2);
    assert_eq!(new_sem(&mut m, 9, 0), 0);
    fork(&mut m, &mut ctx);
    fork_again(&mut m, &mut ctx);
    run(&mut m, &mut ctx, 3);
    sem_wait(&mut m, 9, &mut ctx);
    run(&mut m, &mut ctx, 4);
    sem_wait(&mut m, 9, &mut ctx);
    run(&mut m, &mut ctx, 2);
    kill(&mut m, ProcessId(3), &mut ctx);
    sem_signal(&mut m, 9, &mut ctx);
    assert_eq!(ctx.regs.rax, 0);
    assert_eq!(status(&m, 4), Some(ProgramStatus::Ready));
    assert_eq!(saved_rax(&m, 4), 0);
    check(&m);
}

fn fork_again(m: &mut ProcessManager, ctx: &mut ProcessContext) {
    run(m, ctx, 2);
    fork(m, ctx);
}

#[test]
fn a_semaphore_lets_one_process_in_at_a_time() {
    let mut m = boot();
    spawn(&mut m, "fork").expect("spawned");
    let mut ctx = ProcessContext::new();
    run(&mut m, &mut ctx, 2);
    assert_eq!(new_sem(&mut m, 1, 1), 0);
    assert_eq!(new_sem(&mut m, 1, 1), 1);
    fork(&mut m, &mut ctx);
    fork_again(&mut m, &mut ctx);
    fork_again(&mut m, &mut ctx);
    let children = [3u16, 4, 5];
    let mut inside: Option<u16> = None;
    let mut order: Vec<u16> = Vec::new();
    for child in children {
        run(&mut m, &mut ctx, child);
        sem_wait(&mut m, 1, &mut ctx);
        if current_pid(&m).0 == child {
            assert_eq!(ctx.regs.rax, 0);
            assert_eq!(inside, None);
            inside = Some(child);
            order.push(child);
        } else {
            assert_eq!(status(&m, child), Some(ProgramStatus::Blocked));
        }
        check(&m);
    }
    assert_eq!(inside, Some(3));
    for (code, child) in children.iter().enumerate() {
        run(&mut m, &mut ctx, *child);
        assert_eq!(inside, Some(*child));
        assert_eq!(ctx.regs.rax, 0);
        inside = None;
        sem_signal(&mut m, 1, &mut ctx);
        assert_eq!(ctx.regs.rax, 0);
        if let Some(next) = children.get(code + 1) {
            assert_eq!(status(&m, *next), Some(ProgramStatus::Ready));
            inside = Some(*next);
            order.push(*next);
        }
        process_exit(&mut m, code as i64, &mut ctx);
        check(&m);
    }
    assert_eq!(order, vec![3, 4, 5]);
    run(&mut m, &mut ctx, 2);
    let mut codes: Vec<u64> = Vec::new();
    for child in children {
        wait_pid(&mut m, ProcessId(child), &mut ctx);
        assert_eq!(current_pid(&m), ProcessId(2));
        codes.push(ctx.regs.rax);
    }
    assert_eq!(codes, vec![0, 1, 2]);
    assert_eq!(remove_sem(&mut m, 1), 0);
    assert_eq!(remove_sem(&mut m, 1), 1);
    check(&m);
}

#[test]
fn semaphore_calls_on_a_missing_key_answer_one() {
    let mut m = boot();
    spawn(&mut m, "hello").expect("spawned");
    let mut ctx = ProcessContext::new();
    run(&mut m, &mut ctx, 2);
    sem_wait(&mut m, 5, &mut ctx);
    assert_eq!(ctx.regs.rax, 1);
    assert_eq!(current_pid(&m), ProcessId(2));
    ctx.regs.rax = 0;
    sem_signal(&mut m, 5, &mut ctx);
    assert_eq!(ctx.regs.rax, 1);
    check(&m);
}

#[test]
fn spawned_programs_do_not_share_semaphores() {
    let mut m = boot();
    spawn(&mut m, "hello").expect("spawned");
    spawn(&mut m, "hello").expect("spawned");
    let mut ctx = ProcessContext::new();
    run(&mut m, &mut ctx, 2);
    assert_eq!(new_sem(&mut m, 1, 0), 0);
    run(&mut m, &mut ctx, 3);
    sem_signal(&mut m, 1, &mut ctx);
    assert_eq!(ctx.regs.rax, 1);
    assert_eq!(new_sem(&mut m, 1, 4), 0);
    check(&m);
}

#[test]
fn the_kernel_process_never_waits_on_a_semaphore() {
    let mut m = boot();
    let mut ctx = ProcessContext::new();
    assert_eq!(new_sem(&mut m, 1, 0), 0);
    ctx.regs.rax = 66;
    sem_wait(&mut m, 1, &mut ctx);
    assert_eq!(ctx.regs.rax, 1);
    assert_eq!(status(&m, 1), Some(ProgramStatus::Running));
    assert_eq!(m.sem_count(1), Some(0));
    assert!(m.semaphores[0].sems.entries[0].value.wait_queue.is_empty());
    sem_signal(&mut m, 1, &mut ctx);
    assert_eq!(ctx.regs.rax, 0);
    assert_eq!(m.sem_count(1), Some(1));
    check(&m);
}

#[test]
fn the_kernel_process_takes_a_unit_that_is_left() {
    let mut m = boot();
    let mut ctx = ProcessContext::new();
    assert_eq!(new_sem(&mut m, 5, 1), 0);
    ctx.regs.rax = 66;
    sem_wait(&mut m, 5, &mut ctx);
    assert_eq!(ctx.regs.rax, 0);
    assert_eq!(m.sem_count(5), Some(0));
    assert_eq!(current_pid(&m), ProcessId(1));
    assert_eq!(status(&m, 1), Some(ProgramStatus::Running));
    assert!(ready(&m).is_empty());
    ctx.regs.rax = 66;
    sem_wait(&mut m, 5, &mut ctx);
    assert_eq!(ctx.regs.rax, 1);
    assert_eq!(m.sem_count(5), Some(0));
    ctx.regs.rax = 66;
    sem_wait(&mut m, 6, &mut ctx);
    assert_eq!(ctx.regs.rax, 1);
    assert_eq!(m.sem_count(6), None);
    check(&m);
}

#[test]
fn dropping_a_semaphore_strands_those_who_wait_on_it() {
    let mut m = boot();
    spawn(&mut m, "fork").expect("spawned");
    let mut ctx = ProcessContext::new();
    run(&mut m, &mut ctx, 2);
    assert_eq!(new_sem(&mut m, 1, 0), 0);
    assert_eq!(new_sem(&mut m, 2, 0), 0);
    fork(&mut m, &mut ctx);
    fork_again(&mut m, &mut ctx);
    run(&mut m, &mut ctx, 3);
    sem_wait(&mut m, 1, &mut ctx);
    run(&mut m, &mut ctx, 4);
    sem_wait(&mut m, 2, &mut ctx);
    run(&mut m, &mut ctx, 2);
    let stranded = |m: &ProcessManager, pid: u16| m.get_proc(ProcessId(pid)).expect("process").stranded;
    assert!(!stranded(&m, 3) && !stranded(&m, 4));
    assert_eq!(remove_sem(&mut m, 1), 0);
    assert!(stranded(&m, 3));
    assert!(!stranded(&m, 4) && !stranded(&m, 2));
    assert_eq!(status(&m, 3), Some(ProgramStatus::Blocked));
    assert_eq!(m.sem_count(1), None);
    assert_eq!(new_sem(&mut m, 1, 0), 0);
    sem_signal(&mut m, 1, &mut ctx);
    assert_eq!(status(&m, 3), Some(ProgramStatus::Blocked));
    assert_eq!(m.sem_count(1), Some(1));
    sem_signal(&mut m, 2, &mut ctx);
    assert_eq!(status(&m, 4), Some(ProgramStatus::Ready));
    m.wake_up(ProcessId(3), 0);
    assert!(!stranded(&m, 3));
    assert_eq!(status(&m, 3), Some(ProgramStatus::Ready));
    check(&m);
}

#[test]
fn the_boot_loader_is_held_to_its_bounds() {
    let info = |names: &[&str], regions: usize| BootInfo {
        memory_map: (0..regions).map(|i| MemoryRegion { first_frame: i as u64, frames: 1, usable: true }).collect(),
        physical_memory_offset: 0,
        loaded_apps: Some(apps(&names.iter().map(|n| (*n, 0u64)).collect::<Vec<_>>())),
        log_level: String::from("info"),
        kernel_pages: ArrayVec::new(),
        user_selectors: USER,
        heap_max_pages: 8,
    };
    assert!(info(&["hello"], 3).is_valid());
    assert!(info(&[], 0).is_valid());
    assert!(info(&["sixteen_chars_ok"], 256).is_valid());
    assert!(!info(&["ok", "seventeen_chars_x"], 1).is_valid());
    let mut none = info(&[], 1);
    none.loaded_apps = None;
    assert!(none.is_valid());
    let m = init(info(&["hello"], 3));
    assert!(m.frames.has_available(3) && !m.frames.has_available(4));
}

#[test]
fn the_heap_call_follows_the_running_process() {
    let mut m = boot();
    spawn(&mut m, "hello").expect("spawned");
    let mut ctx = ProcessContext::new();
    assert_eq!(brk(&mut m, None), 0);
    assert_eq!(brk(&mut m, Some(4096)), 0);
    assert_eq!(brk(&mut m, Some(u64::MAX)), 0);
    assert_eq!(brk(&mut m, None), 0);
    assert!(m.frames.has_available(62));
    run(&mut m, &mut ctx, 2);
    let h0 = brk(&mut m, None);
    assert_eq!(h0, 0x402 * PAGE_SIZE);
    assert_eq!(brk(&mut m, None), h0);
    assert_eq!(brk(&mut m, Some(h0 + 4096)), h0 + 4096);
    assert_eq!(brk(&mut m, None), h0 + 4096);
    assert_eq!(brk(&mut m, Some(h0 + 9 * 4096)), h0 + 4096);
    assert_eq!(brk(&mut m, Some(h0)), h0);
    assert!(!handle_page_fault(&mut m, h0 + 8, 6));
    kill(&mut m, ProcessId(2), &mut ctx);
    assert_eq!(current_pid(&m), ProcessId(1));
    assert_eq!(status(&m, 1), Some(ProgramStatus::Running));
    assert_eq!(wait_no_block(&m, ProcessId(2)), Some(KILLED));
    check(&m);
}

#[test]
fn a_stack_fault_of_the_running_process_is_answered() {
    let mut m = boot();
    spawn(&mut m, "hello").expect("spawned");
    let mut ctx = ProcessContext::new();
    run(&mut m, &mut ctx, 2);
    assert!(!handle_page_fault(&mut m, STACK_INIT_TOP, 7));
    assert!(handle_page_fault(&mut m, STACK_INIT_TOP, 6));
    assert!(!handle_page_fault(&mut m, STACK_INIT_TOP, 6));
    assert!(!handle_page_fault(&mut m, STACK_TOP_PAGE * PAGE_SIZE, 6));
    let p = m.get_proc(ProcessId(2)).expect("process");
    assert_eq!(p.vm.page_table.translate(STACK_TOP_PAGE - 1).map(|e| (e.frame, e.writable)), Some((2, true)));
    assert_eq!(p.vm.page_table.table.len(), 3);
    assert!(m.frames.has_available(61) && !m.frames.has_available(62));
    check(&m);
}

#[test]
fn the_environment_is_looked_up_by_key() {
    let mut m = boot();
    let vars = vec![
        EnvVar { key: String::from("HOME"), value: String::from("/") },
        EnvVar { key: String::from("TERM"), value: String::from("dumb") },
        EnvVar { key: String::from("HOME"), value: String::from("/root") },
    ];
    let pid = m.spawn(&image(0), String::from("sh"), Some(ProcessId(1)), vars).expect("spawned");
    let mut ctx = ProcessContext::new();
    assert_eq!(kproc::proc::env(&m, "HOME"), None);
    run(&mut m, &mut ctx, pid.0);
    assert_eq!(kproc::proc::env(&m, "HOME"), Some(String::from("/")));
    assert_eq!(kproc::proc::env(&m, "TERM"), Some(String::from("dumb")));
    assert_eq!(kproc::proc::env(&m, "PATH"), None);
    fork(&mut m, &mut ctx);
    run(&mut m, &mut ctx, 3);
    assert_eq!(kproc::proc::env(&m, "TERM"), Some(String::from("dumb")));
}

#[test]
fn programs_are_found_by_name() {
    let mut m = boot();
    assert_eq!(m.find_app("hello"), Some(0));
    assert_eq!(m.find_app("fork"), Some(1));
    assert_eq!(m.find_app("forks"), None);
    assert_eq!(m.find_app(""), None);
    m.app_list = Some(apps(&[("a", 1), ("b", 2), ("a", 3), ("c", 4)]));
    assert_eq!(m.find_app("a"), Some(0));
    assert_eq!(m.find_app("c"), Some(3));
    let pid = spawn(&mut m, "a").expect("spawned");
    assert_eq!(m.get_proc(pid).expect("process").context.stack_frame.instruction_pointer, 1);
    let pid = spawn(&mut m, "c").expect("spawned");
    assert_eq!(m.get_proc(pid).expect("process").context.stack_frame.instruction_pointer, 4);
    assert_eq!(m.app_list.as_ref().map(|list| list.len()), Some(4));
    m.app_list = None;
    assert_eq!(m.find_app("a"), None);
}

#[test]
fn the_lists_name_programs_and_processes() {
    let mut m = boot();
    assert_eq!(list_app(&m), ">>> App list: hello, fork");
    spawn(&mut m, "fork").expect("spawned");
    let lines = print_process_list(&m);
    assert_eq!(lines.len(), 2);
    assert_eq!((lines[0].pid, lines[0].parent, lines[0].name.as_str()), (ProcessId(1), None, "kernel"));
    assert_eq!(lines[0].status, ProgramStatus::Running);
    assert_eq!((lines[1].pid, lines[1].parent, lines[1].name.as_str()), (ProcessId(2), Some(ProcessId(1)), "fork"));
    assert_eq!((lines[1].status, lines[1].pages, lines[1].exit_code), (ProgramStatus::Ready, 2, None));
    let own = kproc::proc::current_proc_info(&m);
    assert_eq!((own.pid, own.pages, own.ticks_passed), (ProcessId(1), 0, 0));
    m.app_list = Some(apps(&[("a", 1), ("b", 2), ("a", 3), ("c", 4)]));
    assert_eq!(list_app(&m), ">>> App list: a, b, a, c");
    m.app_list = Some(apps(&[("only", 0)]));
    assert_eq!(list_app(&m), ">>> App list: only");
    m.app_list = Some(apps(&[]));
    assert_eq!(list_app(&m), ">>> App list: ");
    m.app_list = None;
    assert_eq!(list_app(&m), ">>> No app found in list!");
}

#[test]
fn a_fault_that_cannot_be_answered_kills_the_process_only() {
    let mut m = boot();
    spawn(&mut m, "hello").expect("spawned");
    let mut ctx = ProcessContext::new();
    run(&mut m, &mut ctx, 2);
    assert_eq!(page_fault(&mut m, STACK_INIT_TOP, 6, &mut ctx), FaultOutcome::Handled);
    assert_eq!(current_pid(&m), ProcessId(2));
    let h0 = brk(&mut m, None);
    assert_eq!(brk(&mut m, Some(h0 + 4096)), h0 + 4096);
    assert!(m.user_range_mapped(h0, 4096));
    assert!(!m.user_range_mapped(h0, 4097));
    assert_eq!(brk(&mut m, Some(h0)), h0);
    assert!(!m.user_range_mapped(h0, 1));
    assert_eq!(page_fault(&mut m, h0 + 100, 4, &mut ctx), FaultOutcome::Killed);
    assert_eq!(current_pid(&m), ProcessId(1));
    assert_eq!(status(&m, 1), Some(ProgramStatus::Running));
    assert_eq!(wait_no_block(&m, ProcessId(2)), Some(KILLED));
    assert!(m.frames.has_available(64));
    check(&m);
    let before = ctx;
    assert_eq!(page_fault(&mut m, 0x1000, 4, &mut ctx), FaultOutcome::Fatal);
    assert_eq!(ctx, before);
    assert_eq!(status(&m, 1), Some(ProgramStatus::Running));
    check(&m);
}

#[test]
fn user_ranges_are_checked_page_by_page() {
    let mut m = boot();
    spawn(&mut m, "hello").expect("spawned");
    let mut ctx = ProcessContext::new();
    assert!(m.user_range_mapped(0x40_0000, 0));
    assert!(!m.user_range_mapped(0x40_0000, 1));
    run(&mut m, &mut ctx, 2);
    assert!(m.user_range_mapped(0x40_0000, 0x2000));
    assert!(m.user_range_mapped(0x40_1fff, 1));
    assert!(!m.user_range_mapped(0x40_1fff, 2));
    assert!(!m.user_range_mapped(0x3f_ffff, 2));
    assert!(m.user_range_mapped(0x3f_ffff, 0));
    assert!(!m.user_range_mapped(u64::MAX, 2));
    assert!(!m.user_range_mapped(0x40_0000, u64::MAX));
}

#[test]
fn what_the_child_writes_the_parent_does_not_see() {
    let mut m = boot();
    spawn(&mut m, "fork").expect("spawned");
    let mut ctx = ProcessContext::new();
    run(&mut m, &mut ctx, 2);
    let mut memory: Vec<[u8; 4096]> = vec![[0u8; 4096]; 70];
    let global = 0x40_0010u64;
    let frame_of = |m: &ProcessManager, pid: u16, addr: u64| {
        m.get_proc(ProcessId(pid)).expect("process").vm.page_table.translate(addr / PAGE_SIZE).expect("mapped").frame
            as usize
    };
    let word = |memory: &Vec<[u8; 4096]>, frame: usize, addr: u64| {
        let at = (addr % PAGE_SIZE) as usize;
        u32::from_le_bytes([memory[frame][at], memory[frame][at + 1], memory[frame][at + 2], memory[frame][at + 3]])
    };
    let at = (global % PAGE_SIZE) as usize;
    let parent_frame = frame_of(&m, 2, global);
    memory[parent_frame][at..at + 4].copy_from_slice(&0xdead_beefu32.to_le_bytes());
    fork(&mut m, &mut ctx);
    let parent = m.get_proc(ProcessId(2)).expect("parent");
    let child = m.get_proc(ProcessId(3)).expect("child");
    for row in child.vm.page_table.table.entries.iter() {
        let source = parent.vm.page_table.translate(row.key).expect("same page").frame as usize;
        memory[row.value.frame as usize] = memory[source];
    }
    let child_frame = frame_of(&m, 3, global);
    assert_ne!(child_frame, parent_frame);
    assert_eq!(frame_of(&m, 2, global), parent_frame);
    assert_eq!(word(&memory, child_frame, global), 0xdead_beef);
    memory[child_frame][at..at + 4].copy_from_slice(&0x2333u32.to_le_bytes());
    run(&mut m, &mut ctx, 3);
    process_exit(&mut m, 64, &mut ctx);
    run(&mut m, &mut ctx, 2);
    wait_pid(&mut m, ProcessId(3), &mut ctx);
    assert_eq!(ctx.regs.rax, 64);
    assert_eq!(word(&memory, frame_of(&m, 2, global), global), 0xdead_beef);
}
