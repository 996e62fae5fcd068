use arrayvec::ArrayVec;
use std::collections::VecDeque;
use vstd::prelude::*;

use crate::apps::{app_index, find_app, listed, App};
use crate::context::{ProcessContext, Selectors};
use crate::frame::FrameAllocator;
use crate::paging::frames_exchanged;
use crate::pid::{kernel_pid, ProcessId};
use crate::process::{env_lookup, stream_at, EnvVar, Process, ProcessData, ProgramStatus, Stream};
use crate::queue::no_duplicates;
use crate::sync::{queued, signal_step, wait_step, SemState, SemaphoreResult, SemaphoreSet};
use crate::table::{lemma_key_row, lemma_keys, lemma_row, lemma_update, Entry, Table};
use crate::vm::{total_pages, ElfImage, ProcessVm, PAGE_SIZE, STACK_INIT_TOP};

verus! {

/// The process subsystem: the table of processes, the queue of those that
/// are ready, the identifier of the one that runs, the counter that names
/// new processes, the families of semaphores, the frames, and the programs
/// that can be started.
pub struct ProcessManager {
    pub processes: Table<Process>,
    pub ready_queue: VecDeque<ProcessId>,
    /// The identifier of the process that has the processor: the cell
    /// that only a switch writes.
    pub current: ProcessId,
    pub next_pid: u32,
    pub semaphores: Vec<SemaphoreSet>,
    pub frames: FrameAllocator,
    pub app_list: Option<ArrayVec<App, 16>>,
    pub selectors: Selectors,
    pub heap_max: u64,
    pub input: VecDeque<u8>,
    pub output: Vec<u8>,
}

/// One line of the list of processes.
pub struct ProcessInfo {
    pub pid: ProcessId,
    pub parent: Option<ProcessId>,
    pub name: String,
    pub status: ProgramStatus,
    pub ticks_passed: u64,
    pub pages: usize,
    pub exit_code: Option<i64>,
}

impl ProcessInfo {
    /// Whether this line describes the process `p`.
    pub open spec fn describes(&self, p: Process) -> bool {
        &&& self.pid == p.pid
        &&& self.parent == p.parent
        &&& self.name == p.name
        &&& self.status == p.status
        &&& self.ticks_passed == p.ticks_passed
        &&& self.pages == p.vm.page_table.table.entries@.len()
        &&& self.exit_code == p.exit_code
    }
}

impl ProcessManager {
    /// The table of processes, by identifier.
    pub open spec fn procs(&self) -> Map<u64, Process> {
        self.processes.map()
    }

    /// Whether the table holds a process `pid`.
    pub open spec fn has(&self, pid: ProcessId) -> bool {
        self.procs().contains_key(pid.0 as u64)
    }

    /// The process `pid` of the table.
    pub open spec fn process(&self, pid: ProcessId) -> Process {
        self.procs()[pid.0 as u64]
    }

    /// Every process is filed under its own identifier, which the counter
    /// has passed; the kernel process is there and is running or ready;
    /// only the current process can be running; and whoever is dead has an
    /// exit code.
    pub open spec fn table_inv(&self) -> bool {
        &&& self.processes.wf()
        &&& self.next_pid <= 65536
        &&& forall|k: u64| #[trigger]
            self.procs().contains_key(k) ==> 1 <= k < self.next_pid && self.procs()[k].pid.0 == k
        &&& self.procs().contains_key(1)
        &&& self.procs()[1].status == ProgramStatus::Running || self.procs()[1].status
            == ProgramStatus::Ready
        &&& forall|k: u64| #[trigger]
            self.procs().contains_key(k) && k != self.current.0 ==> self.procs()[k].status
                != ProgramStatus::Running
        &&& forall|k: u64| #[trigger]
            self.procs().contains_key(k) && self.procs()[k].status == ProgramStatus::Dead
                ==> self.procs()[k].exit_code is Some
    }

    /// The ready queue names no process twice, names only processes that
    /// are ready, and names every ready process but, possibly, the current
    /// one.
    pub open spec fn queue_inv(&self) -> bool {
        &&& no_duplicates(self.ready_queue@)
        &&& forall|i: int|
            0 <= i < self.ready_queue@.len() ==> self.procs().contains_key(
                (#[trigger] self.ready_queue@[i]).0 as u64,
            ) && self.procs()[self.ready_queue@[i].0 as u64].status == ProgramStatus::Ready
        &&& forall|k: u64| #[trigger]
            self.procs().contains_key(k) && self.procs()[k].status == ProgramStatus::Ready && k
                != self.current.0 ==> self.ready_queue@.contains(ProcessId(k as u16))
    }

    /// Every address space is sound and holds frames that are handed out
    /// to it alone, and a process that has ended holds none.
    pub open spec fn frames_inv(&self) -> bool {
        &&& self.frames.wf()
        &&& forall|k: u64| #[trigger]
            self.procs().contains_key(k) && self.procs()[k].status == ProgramStatus::Dead
                ==> self.procs()[k].vm.frames() == Set::<u64>::empty()
        &&& forall|k: u64| #[trigger]
            self.procs().contains_key(k) ==> self.procs()[k].vm.wf() && self.procs()[k].vm.frames().subset_of(
                self.frames.allocated(),
            )
        &&& forall|j: u64, k: u64|
            #![trigger self.procs().contains_key(j), self.procs().contains_key(k)]
            self.procs().contains_key(j) && self.procs().contains_key(k) && j != k
                ==> self.procs()[j].vm.frames().disjoint(self.procs()[k].vm.frames())
    }

    /// Every family of semaphores is sound and every process belongs to
    /// one.
    pub open spec fn sems_inv(&self) -> bool {
        &&& forall|i: int| 0 <= i < self.semaphores@.len() ==> (#[trigger] self.semaphores@[i]).wf()
        &&& forall|k: u64| #[trigger]
            self.procs().contains_key(k) ==> self.procs()[k].data.sem_set < self.semaphores@.len()
    }

    /// Whether the process filed under `k` has what will wake it, if it is
    /// blocked. One that waits for another process waits for a process
    /// that is in the table and has not ended, so that its end will wake
    /// the waiter. One that waits for no process stands in a waiter queue
    /// of its family of semaphores, so that a signal will wake it, unless
    /// the semaphore that it waited on was dropped under it.
    pub open spec fn wait_ok(&self, k: u64) -> bool {
        let p = self.procs()[k];
        p.status == ProgramStatus::Blocked ==> (match p.waiting_for {
            Some(t) => t.0 != k && self.procs().contains_key(t.0 as u64) && self.procs()[t.0 as u64].status
                != ProgramStatus::Dead,
            None => p.stranded || queued(self.semaphores@[p.data.sem_set as int]@, p.pid),
        })
    }

    /// Every blocked process has what will wake it; see [`Self::wait_ok`].
    pub open spec fn waits_ok(&self) -> bool {
        forall|k: u64| #[trigger] self.procs().contains_key(k) ==> self.wait_ok(k)
    }

    /// Every blocked process but `skip` has what will wake it.
    pub open spec fn waits_ok_besides(&self, skip: ProcessId) -> bool {
        forall|k: u64| #[trigger] self.procs().contains_key(k) && k != skip.0 ==> self.wait_ok(k)
    }

    /// What holds of the manager at every moment, also in the middle of a
    /// switch.
    pub open spec fn inv(&self) -> bool {
        &&& self.table_inv()
        &&& self.queue_inv()
        &&& self.frames_inv()
        &&& self.sems_inv()
    }

    /// What holds of the manager between operations: besides [`Self::inv`],
    /// the current process is in the table and is running, so that every
    /// ready process stands in the ready queue, and nobody waits for a
    /// process that has ended.
    pub open spec fn wf(&self) -> bool {
        &&& self.inv()
        &&& self.running()
        &&& self.waits_ok()
    }

    /// The current process is in the table and is running.
    pub open spec fn running(&self) -> bool {
        &&& self.has(self.current)
        &&& self.process(self.current).status == ProgramStatus::Running
    }

    /// Nothing but the table of processes differs between `self` and
    /// `before`.
    pub open spec fn same_but_table(&self, before: &ProcessManager) -> bool {
        *self == (ProcessManager { processes: self.processes, ..*before })
    }

    /// Nothing but the table, the ready queue and the current process
    /// differs between `self` and `before`.
    pub open spec fn same_but_schedule(&self, before: &ProcessManager) -> bool {
        *self == (ProcessManager {
            processes: self.processes,
            ready_queue: self.ready_queue,
            current: self.current,
            ..*before
        })
    }

    /// `self` is `before` after [`Self::save_current`] with the live
    /// context `ctx`.
    pub open spec fn saved_from(&self, before: &ProcessManager, ctx: ProcessContext) -> bool {
        &&& self.same_but_table(before)
        &&& self.procs() == before.procs().insert(
            before.current.0 as u64,
            before.process(before.current).saved(ctx),
        )
    }

    /// `self` is `before` after [`Self::push_ready`] of `pid`.
    pub open spec fn pushed_from(&self, before: &ProcessManager, pid: ProcessId) -> bool {
        &&& *self == (ProcessManager { ready_queue: self.ready_queue, ..*before })
        &&& self.ready_queue@ == if before.ready_queue@.contains(pid) {
            before.ready_queue@
        } else {
            before.ready_queue@.push(pid)
        }
    }

    /// `self` is `before` after [`Self::switch_next`], which left `ctx` as
    /// the live context.
    pub open spec fn switched_from(&self, before: &ProcessManager, ctx: ProcessContext) -> bool {
        let next = before.next_up();
        &&& self.current == next
        &&& before.has(next)
        &&& self.same_but_schedule(before)
        &&& self.ready_queue@ == if before.ready_queue@.len() > 0 {
            before.ready_queue@.subrange(1, before.ready_queue@.len() as int)
        } else {
            before.ready_queue@
        }
        &&& self.procs() == before.procs().insert(
            next.0 as u64,
            Process { status: ProgramStatus::Running, ..before.process(next) },
        )
        &&& ctx == before.process(next).context
    }

    /// `self` is `before` after [`Self::block_waiting`] of a process that
    /// can be blocked.
    pub open spec fn blocked_from(
        &self,
        before: &ProcessManager,
        pid: ProcessId,
        target: Option<ProcessId>,
    ) -> bool {
        &&& self.same_but_schedule(before)
        &&& self.current == before.current
        &&& self.procs() == before.procs().insert(
            pid.0 as u64,
            Process {
                status: ProgramStatus::Blocked,
                waiting_for: target,
                stranded: false,
                ..before.process(pid)
            },
        )
        &&& self.ready_queue@ == crate::queue::without(before.ready_queue@, pid)
    }

    /// `self` is `before` after [`Self::wake_up`] of a blocked process
    /// with the result `ret`.
    pub open spec fn woken_from(&self, before: &ProcessManager, pid: ProcessId, ret: u64) -> bool {
        &&& self.same_but_schedule(before)
        &&& self.current == before.current
        &&& self.procs() == before.procs().insert(pid.0 as u64, before.process(pid).woken(ret))
        &&& self.ready_queue@ == before.ready_queue@.push(pid)
    }

    /// `self` is `before` after a [`Self::fork`] that made the child
    /// `child`.
    pub open spec fn forked_from(&self, before: &ProcessManager, child: ProcessId) -> bool {
        let parent = before.process(before.current);
        let c = self.process(child);
        &&& *self == (ProcessManager {
            processes: self.processes,
            ready_queue: self.ready_queue,
            next_pid: self.next_pid,
            frames: self.frames,
            ..*before
        })
        &&& child.0 == before.next_pid
        &&& child.0 != 0
        &&& child != before.current
        &&& !before.has(child)
        &&& self.next_pid == before.next_pid + 1
        &&& self.procs() == before.procs().insert(
            before.current.0 as u64,
            Process { context: parent.context.with_rax(child.0 as u64), ..parent },
        ).insert(child.0 as u64, c)
        &&& self.ready_queue@ == before.ready_queue@.push(child)
        &&& c.pid == child
        &&& c.name == parent.name
        &&& c.parent == Some(before.current)
        &&& c.status == ProgramStatus::Ready
        &&& c.context == parent.context.with_rax(0)
        &&& c.exit_code is None
        &&& c.ticks_passed == 0
        &&& c.waiting_for is None
        &&& !c.stranded
        &&& c.data.env@ == parent.data.env@
        &&& c.data.streams@ == parent.data.streams@
        &&& c.data.sem_set == parent.data.sem_set
        &&& c.vm.forked_from(&parent.vm, before.frames.allocated())
        &&& self.frames.allocated() == before.frames.allocated().union(c.vm.frames())
    }

    /// `self` is `before` after a [`Self::fork`] that could make no child.
    pub open spec fn fork_refused_from(&self, before: &ProcessManager) -> bool {
        &&& self.same_but_table(before)
        &&& self.procs() == before.procs().insert(
            before.current.0 as u64,
            Process {
                context: before.process(before.current).context.with_rax(u64::MAX),
                ..before.process(before.current)
            },
        )
    }

    /// Who has the processor, followed by those who are ready, in the
    /// order in which they will get it.
    pub open spec fn schedule(&self) -> Seq<ProcessId> {
        seq![self.current] + self.ready_queue@
    }

    /// `self` is `before` after the step that [`Self::fork`] takes.
    pub open spec fn fork_step_from(&self, before: &ProcessManager) -> bool {
        if before.can_fork() {
            self.forked_from(before, ProcessId(before.next_pid as u16))
        } else {
            self.fork_refused_from(before)
        }
    }

    /// The process that gets the processor next: the head of the ready
    /// queue, or the kernel process when nobody is ready.
    pub open spec fn next_up(&self) -> ProcessId {
        if self.ready_queue@.len() > 0 {
            self.ready_queue@[0]
        } else {
            ProcessId::kernel()
        }
    }

    /// A manager with the kernel process alone, which is running; `frames`
    /// frames to hand out; user heaps of at most `heap_max` pages.
    pub fn new(
        frames: u64,
        selectors: Selectors,
        heap_max: u64,
        app_list: Option<ArrayVec<App, 16>>,
    ) -> (m: Self)
        ensures
            m.wf(),
            m.current == ProcessId::kernel(),
            m.procs().dom() == set![1u64],
            m.process(ProcessId::kernel()).parent is None,
            m.process(ProcessId::kernel()).name@ == "kernel"@,
            m.process(ProcessId::kernel()).context == ProcessContext::zero(),
            m.process(ProcessId::kernel()).vm.frames() == Set::<u64>::empty(),
            m.ready_queue@.len() == 0,
            m.next_pid == 2,
            m.semaphores@.len() == 1,
            m.semaphores@[0]@ == Map::<u32, crate::sync::SemState>::empty(),
            m.frames.allocated() == Set::<u64>::empty(),
            m.frames.available() == frames,
            m.app_list == app_list,
            m.selectors == selectors,
            m.heap_max == heap_max,
            m.input@.len() == 0,
            m.output@.len() == 0,
    {
        let env: Vec<EnvVar> = Vec::new();
        let kernel = Process {
            pid: kernel_pid(),
            name: "kernel".to_owned(),
            parent: None,
            status: ProgramStatus::Running,
            context: ProcessContext::new(),
            exit_code: None,
            ticks_passed: 0,
            waiting_for: None,
            stranded: false,
            vm: ProcessVm::empty(),
            data: ProcessData::new(env, 0),
        };
        let mut processes: Table<Process> = Table::new();
        processes.insert_new(1, kernel);
        let mut semaphores: Vec<SemaphoreSet> = Vec::new();
        semaphores.push(SemaphoreSet::new());
        let m = ProcessManager {
            processes,
            ready_queue: VecDeque::new(),
            current: kernel_pid(),
            next_pid: 2,
            semaphores,
            frames: FrameAllocator::new(frames),
            app_list,
            selectors,
            heap_max,
            input: VecDeque::new(),
            output: Vec::new(),
        };
        proof {
            assert(m.procs().dom() =~= set![1u64]);
        }
        m
    }

    /// The identifier of the process that has the processor.
    pub fn current_pid(&self) -> (pid: ProcessId)
        ensures
            pid == self.current,
    {
        self.current
    }

    /// The process that has the processor.
    pub fn current(&self) -> (p: &Process)
        requires
            self.inv(),
            self.has(self.current),
        ensures
            *p == self.process(self.current),
    {
        let i = self.processes.find(self.current.0 as u64).unwrap();
        &self.processes.entries[i].value
    }

    /// The process `pid`, if the table holds it.
    pub fn get_proc(&self, pid: ProcessId) -> (r: Option<&Process>)
        requires
            self.inv(),
        ensures
            match r {
                Some(p) => self.has(pid) && *p == self.process(pid),
                None => !self.has(pid),
            },
    {
        match self.processes.find(pid.0 as u64) {
            Some(i) => Some(&self.processes.entries[i].value),
            None => None,
        }
    }

    /// Keeps the live context `ctx` as the context of the current process,
    /// makes that process ready if it was running, and counts a tick for
    /// it. The answer is its identifier.
    pub fn save_current(&mut self, ctx: &ProcessContext) -> (pid: ProcessId)
        requires
            old(self).inv(),
            old(self).has(old(self).current),
        ensures
            final(self).inv(),
            old(self).waits_ok() ==> final(self).waits_ok(),
            pid == old(self).current,
            final(self).saved_from(old(self), *ctx),
    {
        let pid = self.current;
        let i = self.processes.find(pid.0 as u64).unwrap();
        let p = &mut self.processes.entries[i].value;
        p.context.save(ctx);
        match p.status {
            ProgramStatus::Running => {
                p.status = ProgramStatus::Ready;
            },
            _ => {},
        }
        if p.ticks_passed < u64::MAX {
            p.ticks_passed = p.ticks_passed + 1;
        }
        proof {
            lemma_update(old(self).processes.entries@, self.processes.entries@, i as int);
            assert(self.processes.entries@[i as int].value == old(self).process(pid).saved(*ctx));
        }
        pid
    }

    /// Puts `pid`, which must be ready, behind the others in the ready
    /// queue, unless it stands there already.
    pub fn push_ready(&mut self, pid: ProcessId)
        requires
            old(self).inv(),
            old(self).has(pid),
            old(self).process(pid).status == ProgramStatus::Ready,
        ensures
            final(self).inv(),
            old(self).waits_ok() ==> final(self).waits_ok(),
            final(self).pushed_from(old(self), pid),
    {
        if !crate::queue::queue_contains(&self.ready_queue, pid) {
            self.ready_queue.push_back(pid);
            proof {
                let q0 = old(self).ready_queue@;
                let q1 = self.ready_queue@;
                assert forall|k: u64| #[trigger]
                    self.procs().contains_key(k) && self.procs()[k].status == ProgramStatus::Ready && k
                        != self.current.0 implies q1.contains(ProcessId(k as u16)) by {
                    let w = ProcessId(k as u16);
                    assert(q0.contains(w));
                    let i = choose|i: int| 0 <= i < q0.len() && q0[i] == w;
                    assert(q1[i] == w);
                }
            }
        }
    }

    /// Gives the processor to the head of the ready queue, or to the
    /// kernel process when the queue is empty: that process leaves the
    /// queue, becomes the running and current one, and its saved context
    /// replaces the live context `ctx`. The process that had the processor
    /// must have given it up before, and must stand in the queue if it is
    /// ready and the queue is not empty.
    pub fn switch_next(&mut self, ctx: &mut ProcessContext) -> (next: ProcessId)
        requires
            old(self).inv(),
            old(self).waits_ok(),
            old(self).has(old(self).current) ==> old(self).process(old(self).current).status
                != ProgramStatus::Running,
            old(self).has(old(self).current) && old(self).process(old(self).current).status
                == ProgramStatus::Ready && old(self).ready_queue@.len() > 0
                ==> old(self).ready_queue@.contains(old(self).current),
        ensures
            final(self).wf(),
            next == old(self).next_up(),
            final(self).switched_from(old(self), *final(ctx)),
    {
        let next = match self.ready_queue.pop_front() {
            Some(p) => p,
            None => kernel_pid(),
        };
        proof {
            let q0 = old(self).ready_queue@;
            if q0.len() > 0 {
                assert(q0[0] == next);
            }
        }
        let i = self.processes.find(next.0 as u64).unwrap();
        let p = &mut self.processes.entries[i].value;
        p.status = ProgramStatus::Running;
        p.context.restore(ctx);
        self.current = next;
        proof {
            lemma_update(old(self).processes.entries@, self.processes.entries@, i as int);
            assert(self.processes.entries@[i as int].value == (Process {
                status: ProgramStatus::Running,
                ..old(self).process(next)
            }));
            let q0 = old(self).ready_queue@;
            let q1 = self.ready_queue@;
            let cur0 = old(self).current;
            if q0.len() == 0 {
                // nobody but the kernel process can be ready, and it is the current one
                if cur0.0 != 1 {
                    assert(old(self).procs().contains_key(1));
                    assert(q0.contains(ProcessId(1u64 as u16)));
                }
            }
            assert forall|k: u64| #[trigger]
                self.procs().contains_key(k) && self.procs()[k].status == ProgramStatus::Ready && k
                    != self.current.0 implies q1.contains(ProcessId(k as u16)) by {
                let w = ProcessId(k as u16);
                assert(old(self).procs().contains_key(k));
                assert(old(self).procs()[k].status == ProgramStatus::Ready);
                if q0.len() > 0 {
                    assert(q0.contains(w));
                    let j = choose|j: int| 0 <= j < q0.len() && q0[j] == w;
                    assert(j != 0);
                    assert(q1[j - 1] == w);
                }
            }
            assert forall|a: int|
                0 <= a < q1.len() implies self.procs().contains_key((#[trigger] q1[a]).0 as u64)
                && self.procs()[q1[a].0 as u64].status == ProgramStatus::Ready by {
                assert(q1[a] == q0[a + 1]);
                assert(q0[a + 1] != q0[0]);
            }
            assert forall|a: int, b: int| 0 <= a < q1.len() && 0 <= b < q1.len() && a != b implies q1[a]
                != q1[b] by {
                assert(q1[a] == q0[a + 1] && q1[b] == q0[b + 1]);
            }
        }
        next
    }

    /// Whether a program can be started from `image`: an identifier is
    /// left, the image is valid, and there are frames for its pages.
    pub open spec fn can_spawn(&self, image: &ElfImage) -> bool {
        &&& self.next_pid <= 65535
        &&& image.valid(self.heap_max)
        &&& self.frames.available() >= total_pages(image.segments@)
    }

    /// `self` is `before` after a [`Self::spawn`] that started the process
    /// `pid` from `image` with the given name, parent and environment.
    pub open spec fn spawned_from(
        &self,
        before: &ProcessManager,
        pid: ProcessId,
        image: &ElfImage,
        name: String,
        parent: Option<ProcessId>,
        env: Vec<EnvVar>,
    ) -> bool {
        let p = self.process(pid);
        &&& pid.0 == before.next_pid
        &&& !before.has(pid)
        &&& self.next_pid == before.next_pid + 1
        &&& self.procs() == before.procs().insert(pid.0 as u64, p)
        &&& self.ready_queue@ == before.ready_queue@.push(pid)
        &&& self.current == before.current
        &&& self.app_list == before.app_list
        &&& self.selectors == before.selectors
        &&& self.heap_max == before.heap_max
        &&& self.input == before.input
        &&& self.output == before.output
        &&& self.semaphores@.len() == before.semaphores@.len() + 1
        &&& forall|i: int|
            0 <= i < before.semaphores@.len() ==> self.semaphores@[i] == before.semaphores@[i]
        &&& self.semaphores@[p.data.sem_set as int]@ == Map::<
            u32,
            crate::sync::SemState,
        >::empty()
        &&& p.pid == pid
        &&& p.name == name
        &&& p.parent == parent
        &&& p.status == ProgramStatus::Ready
        &&& p.context == ProcessContext::initial(
            image.entry,
            STACK_INIT_TOP,
            before.selectors,
        )
        &&& p.exit_code is None
        &&& p.ticks_passed == 0
        &&& p.waiting_for is None
        &&& !p.stranded
        &&& p.data.env == env
        &&& p.data.sem_set == before.semaphores@.len()
        &&& p.vm.loaded_from(image, before.heap_max)
        &&& p.vm.frames().disjoint(before.frames.allocated())
        &&& self.frames.allocated() == before.frames.allocated().union(p.vm.frames())
    }

    /// Starts a program: a new process with the next identifier, the
    /// address space of `image`, a context that begins at the image's
    /// entry with an empty stack, the given name, parent and environment,
    /// and a family of semaphores of its own. It is ready and goes to the
    /// end of the ready queue. `None`, and nothing changed, where
    /// [`Self::can_spawn`] does not hold.
    pub fn spawn(
        &mut self,
        image: &ElfImage,
        name: String,
        parent: Option<ProcessId>,
        env: Vec<EnvVar>,
    ) -> (r: Option<ProcessId>)
        requires
            old(self).inv(),
        ensures
            final(self).inv(),
            old(self).wf() ==> final(self).wf(),
            r is Some <==> old(self).can_spawn(image),
            r is None ==> *final(self) == *old(self),
            r matches Some(pid) ==> final(self).spawned_from(old(self), pid, image, name, parent, env),
    {
        if self.next_pid > 65535 {
            return None;
        }
        let vm = match ProcessVm::load(image, self.heap_max, &mut self.frames) {
            None => {
                return None;
            },
            Some(vm) => vm,
        };
        let pid = ProcessId(self.next_pid as u16);
        let mut context = ProcessContext::new();
        context.init_stack_frame(image.entry, STACK_INIT_TOP, self.selectors);
        let sem_set = self.semaphores.len();
        self.semaphores.push(SemaphoreSet::new());
        let p = Process {
            pid,
            name,
            parent,
            status: ProgramStatus::Ready,
            context,
            exit_code: None,
            ticks_passed: 0,
            waiting_for: None,
            stranded: false,
            vm,
            data: ProcessData::new(env, sem_set),
        };
        proof {
            if old(self).procs().contains_key(pid.0 as u64) {
                assert(false);
            }
            assert(!old(self).ready_queue@.contains(pid)) by {
                if old(self).ready_queue@.contains(pid) {
                    let i = choose|i: int| 0 <= i < old(self).ready_queue@.len() && old(self).ready_queue@[i] == pid;
                    assert(old(self).procs().contains_key(old(self).ready_queue@[i].0 as u64));
                }
            }
        }
        self.processes.insert_new(pid.0 as u64, p);
        self.ready_queue.push_back(pid);
        self.next_pid = self.next_pid + 1;
        proof {
            let q0 = old(self).ready_queue@;
            let q1 = self.ready_queue@;
            assert(q1[q0.len() as int] == pid);
            assert forall|k: u64| #[trigger]
                self.procs().contains_key(k) && self.procs()[k].status == ProgramStatus::Ready && k
                    != self.current.0 implies q1.contains(ProcessId(k as u16)) by {
                let w = ProcessId(k as u16);
                if k != pid.0 as u64 {
                    assert(old(self).procs().contains_key(k));
                    assert(q0.contains(w));
                    let i = choose|i: int| 0 <= i < q0.len() && q0[i] == w;
                    assert(q1[i] == w);
                }
            }
            assert forall|a: int|
                0 <= a < q1.len() implies self.procs().contains_key((#[trigger] q1[a]).0 as u64)
                && self.procs()[q1[a].0 as u64].status == ProgramStatus::Ready by {
                if a < q0.len() {
                    assert(q1[a] == q0[a]);
                    assert(old(self).procs().contains_key(q0[a].0 as u64));
                }
            }
            assert forall|a: int, b: int| 0 <= a < q1.len() && 0 <= b < q1.len() && a != b implies q1[a]
                != q1[b] by {
                if a < q0.len() {
                    assert(q1[a] == q0[a]);
                    assert(q0.contains(q0[a]));
                }
                if b < q0.len() {
                    assert(q1[b] == q0[b]);
                    assert(q0.contains(q0[b]));
                }
            }
            assert forall|i: int| 0 <= i < self.semaphores@.len()
            implies (#[trigger] self.semaphores@[i]).wf() by {
                if i < old(self).semaphores@.len() {
                    assert(self.semaphores@[i] == old(self).semaphores@[i]);
                }
            }
            assert(self.frames_inv()) by {
                assert forall|k: u64| #[trigger] self.procs().contains_key(k) implies self.procs()[k].vm.wf()
                    && self.procs()[k].vm.frames().subset_of(self.frames.allocated()) by {
                    if k != pid.0 as u64 {
                        assert(old(self).procs().contains_key(k));
                    }
                }
                assert forall|j: u64, k: u64|
                    #![trigger self.procs().contains_key(j), self.procs().contains_key(k)]
                    self.procs().contains_key(j) && self.procs().contains_key(k) && j != k implies self.procs()[j].vm.frames().disjoint(
                    self.procs()[k].vm.frames(),
                ) by {
                    if j != pid.0 as u64 {
                        assert(old(self).procs().contains_key(j));
                    }
                    if k != pid.0 as u64 {
                        assert(old(self).procs().contains_key(k));
                    }
                }
            }
        }
        Some(pid)
    }

    /// Whether the current process can be forked: an identifier is left and
    /// there is a free frame for each of its pages.
    pub open spec fn can_fork(&self) -> bool {
        &&& self.next_pid <= 65535
        &&& self.frames.available() >= self.process(self.current).vm.page_table.table.entries@.len()
    }

    /// Forks the current process, whose context has been saved. The child
    /// gets the next identifier, a copy of the parent's address space on
    /// frames of its own, a copy of its name, environment and descriptors,
    /// its family of semaphores, and its saved context with the result 0.
    /// It is ready and goes to the end of the ready queue. The parent
    /// finds the child's identifier as its result. Where
    /// [`Self::can_fork`] does not hold there is no child, and the parent
    /// finds the result with all bits set.
    pub fn fork(&mut self) -> (r: Option<ProcessId>)
        requires
            old(self).inv(),
            old(self).has(old(self).current),
        ensures
            final(self).inv(),
            old(self).wf() ==> final(self).wf(),
            old(self).waits_ok() ==> final(self).waits_ok(),
            r is Some <==> old(self).can_fork(),
            r is None ==> final(self).fork_refused_from(old(self)),
            r matches Some(child) ==> final(self).forked_from(old(self), child),
    {
        let cur = self.current;
        let i = self.processes.find(cur.0 as u64).unwrap();
        let forked = if self.next_pid > 65535 {
            None
        } else {
            self.processes.entries[i].value.vm.fork(&mut self.frames)
        };
        let vm = match forked {
            None => {
                let p = &mut self.processes.entries[i].value;
                p.context.set_rax(u64::MAX);
                proof {
                    lemma_update(old(self).processes.entries@, self.processes.entries@, i as int);
                    assert(self.processes.entries@[i as int].value == (Process {
                        context: old(self).process(cur).context.with_rax(u64::MAX),
                        ..old(self).process(cur)
                    }));
                }
                return None;
            },
            Some(vm) => vm,
        };
        let child = ProcessId(self.next_pid as u16);
        let parent = &self.processes.entries[i].value;
        let mut context = parent.context;
        context.set_rax(0);
        let c = Process {
            pid: child,
            name: parent.name.clone(),
            parent: Some(cur),
            status: ProgramStatus::Ready,
            context,
            exit_code: None,
            ticks_passed: 0,
            waiting_for: None,
            stranded: false,
            vm,
            data: parent.data.duplicate(),
        };
        let p = &mut self.processes.entries[i].value;
        p.context.set_rax(child.0 as u64);
        proof {
            lemma_update(old(self).processes.entries@, self.processes.entries@, i as int);
            assert(self.processes.entries@[i as int].value == (Process {
                context: old(self).process(cur).context.with_rax(child.0 as u64),
                ..old(self).process(cur)
            }));
            if old(self).procs().contains_key(child.0 as u64) {
                assert(false);
            }
            assert(!old(self).ready_queue@.contains(child)) by {
                if old(self).ready_queue@.contains(child) {
                    let a = choose|a: int| 0 <= a < old(self).ready_queue@.len() && old(self).ready_queue@[a] == child;
                    assert(old(self).procs().contains_key(old(self).ready_queue@[a].0 as u64));
                }
            }
        }
        self.processes.insert_new(child.0 as u64, c);
        self.ready_queue.push_back(child);
        self.next_pid = self.next_pid + 1;
        proof {
            let q0 = old(self).ready_queue@;
            let q1 = self.ready_queue@;
            assert(q1[q0.len() as int] == child);
            assert forall|k: u64| #[trigger] self.procs().contains_key(k) implies (k == child.0 as u64
                || old(self).procs().contains_key(k)) by {}
            assert forall|k: u64| #[trigger]
                self.procs().contains_key(k) && self.procs()[k].status == ProgramStatus::Ready && k
                    != self.current.0 implies q1.contains(ProcessId(k as u16)) by {
                let w = ProcessId(k as u16);
                if k != child.0 as u64 {
                    assert(old(self).procs().contains_key(k));
                    assert(q0.contains(w));
                    let a = choose|a: int| 0 <= a < q0.len() && q0[a] == w;
                    assert(q1[a] == w);
                }
            }
            assert forall|a: int|
                0 <= a < q1.len() implies self.procs().contains_key((#[trigger] q1[a]).0 as u64)
                && self.procs()[q1[a].0 as u64].status == ProgramStatus::Ready by {
                if a < q0.len() {
                    assert(q1[a] == q0[a]);
                    assert(old(self).procs().contains_key(q0[a].0 as u64));
                }
            }
            assert forall|a: int, b: int| 0 <= a < q1.len() && 0 <= b < q1.len() && a != b implies q1[a]
                != q1[b] by {
                if a < q0.len() {
                    assert(q1[a] == q0[a]);
                    assert(q0.contains(q0[a]));
                }
                if b < q0.len() {
                    assert(q1[b] == q0[b]);
                    assert(q0.contains(q0[b]));
                }
            }
            assert(self.frames_inv()) by {
                assert forall|k: u64| #[trigger] self.procs().contains_key(k) implies self.procs()[k].vm.wf()
                    && self.procs()[k].vm.frames().subset_of(self.frames.allocated()) by {
                    if k != child.0 as u64 {
                        assert(old(self).procs().contains_key(k));
                    }
                }
                assert forall|j: u64, k: u64|
                    #![trigger self.procs().contains_key(j), self.procs().contains_key(k)]
                    self.procs().contains_key(j) && self.procs().contains_key(k) && j != k implies self.procs()[j].vm.frames().disjoint(
                    self.procs()[k].vm.frames(),
                ) by {
                    if j != child.0 as u64 {
                        assert(old(self).procs().contains_key(j));
                    }
                    if k != child.0 as u64 {
                        assert(old(self).procs().contains_key(k));
                    }
                }
            }
        }
        Some(child)
    }

    /// Wakes the blocked process in row `row`: it becomes ready, waits for
    /// nothing, finds `ret` as the result of its call, and goes to the end
    /// of the ready queue.
    pub(crate) fn wake_row(&mut self, row: usize, ret: u64)
        requires
            old(self).inv(),
            row < old(self).processes.entries@.len(),
            old(self).processes.entries@[row as int].value.status == ProgramStatus::Blocked,
        ensures
            final(self).inv(),
            old(self).wf() ==> final(self).wf(),
            old(self).running() ==> final(self).running(),
            old(self).waits_ok_besides(old(self).processes.entries@[row as int].value.pid)
                ==> final(self).waits_ok(),
            final(self).same_but_schedule(old(self)),
            final(self).current == old(self).current,
            final(self).processes.entries@.len() == old(self).processes.entries@.len(),
            forall|a: int|
                0 <= a < old(self).processes.entries@.len() && a != row ==> final(self).processes.entries@[a]
                    == old(self).processes.entries@[a],
            final(self).processes.entries@[row as int].key == old(self).processes.entries@[row as int].key,
            final(self).processes.entries@[row as int].value == old(self).processes.entries@[row as int].value.woken(
                ret,
            ),
            final(self).procs() == old(self).procs().insert(
                old(self).processes.entries@[row as int].key,
                old(self).processes.entries@[row as int].value.woken(ret),
            ),
            final(self).ready_queue@ == old(self).ready_queue@.push(
                old(self).processes.entries@[row as int].value.pid,
            ),
    {
        proof {
            lemma_row(self.processes.entries@, row as int);
        }
        let p = &mut self.processes.entries[row].value;
        p.context.set_rax(ret);
        p.status = ProgramStatus::Ready;
        p.waiting_for = None;
        p.stranded = false;
        let pid = p.pid;
        self.ready_queue.push_back(pid);
        proof {
            lemma_update(old(self).processes.entries@, self.processes.entries@, row as int);
            assert(self.processes.entries@[row as int].value == old(self).processes.entries@[row as int].value.woken(
                ret,
            ));
            let key = old(self).processes.entries@[row as int].key;
            let q0 = old(self).ready_queue@;
            let q1 = self.ready_queue@;
            assert(pid.0 == key);
            assert(!q0.contains(pid)) by {
                if q0.contains(pid) {
                    let a = choose|a: int| 0 <= a < q0.len() && q0[a] == pid;
                    assert(old(self).procs()[q0[a].0 as u64].status == ProgramStatus::Ready);
                }
            }
            crate::queue::lemma_push_fresh(q0, pid);
            assert forall|k: u64| #[trigger]
                self.procs().contains_key(k) && self.procs()[k].status == ProgramStatus::Ready && k
                    != self.current.0 implies q1.contains(ProcessId(k as u16)) by {
                if k != key {
                    assert(old(self).procs().contains_key(k));
                    assert(q0.contains(ProcessId(k as u16)));
                } else {
                    assert(ProcessId(k as u16) == pid);
                }
            }
            assert forall|a: int|
                0 <= a < q1.len() implies self.procs().contains_key((#[trigger] q1[a]).0 as u64)
                && self.procs()[q1[a].0 as u64].status == ProgramStatus::Ready by {
                if a < q0.len() {
                    assert(q1[a] == q0[a]);
                    assert(old(self).procs().contains_key(q0[a].0 as u64));
                }
            }
            assert(self.frames_inv()) by {
                assert forall|k: u64| #[trigger] self.procs().contains_key(k) implies self.procs()[k].vm.wf()
                    && self.procs()[k].vm.frames().subset_of(self.frames.allocated()) by {
                    assert(old(self).procs().contains_key(k));
                }
                assert forall|j: u64, k: u64|
                    #![trigger self.procs().contains_key(j), self.procs().contains_key(k)]
                    self.procs().contains_key(j) && self.procs().contains_key(k) && j != k implies self.procs()[j].vm.frames().disjoint(
                    self.procs()[k].vm.frames(),
                ) by {
                    assert(old(self).procs().contains_key(j));
                    assert(old(self).procs().contains_key(k));
                }
            }
        }
    }

    /// Wakes the process `pid` if it is blocked: it becomes ready, finds
    /// `ret` as the result of its call, and goes to the end of the ready
    /// queue. Nothing changes for a process that is not blocked or not
    /// there.
    pub fn wake_up(&mut self, pid: ProcessId, ret: u64)
        requires
            old(self).inv(),
        ensures
            final(self).inv(),
            old(self).wf() ==> final(self).wf(),
            old(self).running() ==> final(self).running(),
            old(self).waits_ok_besides(pid) ==> final(self).waits_ok(),
            if old(self).has(pid) && old(self).process(pid).status == ProgramStatus::Blocked {
                final(self).woken_from(old(self), pid, ret)
            } else {
                *final(self) == *old(self)
            },
    {
        match self.processes.find(pid.0 as u64) {
            None => {},
            Some(i) => {
                match self.processes.entries[i].value.status {
                    ProgramStatus::Blocked => {
                        self.wake_row(i, ret);
                    },
                    _ => {},
                }
            },
        }
    }

    /// Whether `block` acts on `pid`: the process is there, it is not the
    /// kernel process, and it is running or ready.
    pub open spec fn can_block(&self, pid: ProcessId) -> bool {
        &&& self.has(pid)
        &&& pid != ProcessId::kernel()
        &&& (self.process(pid).status == ProgramStatus::Running || self.process(pid).status
            == ProgramStatus::Ready)
    }

    /// Whether `pid`, once blocked, has what will wake it: `target` is
    /// another process, which is in the table and has not ended; or, with
    /// no target, `pid` stands in a waiter queue of its family.
    pub open spec fn can_wait_for(&self, pid: ProcessId, target: Option<ProcessId>) -> bool {
        match target {
            Some(t) => t != pid && self.has(t) && self.process(t).status != ProgramStatus::Dead,
            None => queued(self.semaphores@[self.process(pid).data.sem_set as int]@, pid),
        }
    }

    /// Blocks `pid` until somebody wakes it: it leaves the ready queue and
    /// is marked as waiting for `target`, if one is given. The kernel
    /// process is never blocked, and a process that is blocked or dead
    /// stays as it is.
    pub fn block_waiting(&mut self, pid: ProcessId, target: Option<ProcessId>)
        requires
            old(self).inv(),
        ensures
            final(self).inv(),
            old(self).running() && pid != old(self).current ==> final(self).running(),
            old(self).waits_ok() && old(self).can_wait_for(pid, target) ==> final(self).waits_ok(),
            if old(self).can_block(pid) {
                final(self).blocked_from(old(self), pid, target)
            } else {
                *final(self) == *old(self)
            },
    {
        if pid.0 == 1 {
            return ;
        }
        let i = match self.processes.find(pid.0 as u64) {
            None => {
                return ;
            },
            Some(i) => i,
        };
        match self.processes.entries[i].value.status {
            ProgramStatus::Blocked => {
                return ;
            },
            ProgramStatus::Dead => {
                return ;
            },
            _ => {},
        }
        let p = &mut self.processes.entries[i].value;
        p.status = ProgramStatus::Blocked;
        p.waiting_for = target;
        p.stranded = false;
        crate::queue::remove_pid(&mut self.ready_queue, pid);
        proof {
            lemma_update(old(self).processes.entries@, self.processes.entries@, i as int);
            assert(self.processes.entries@[i as int].value == (Process {
                status: ProgramStatus::Blocked,
                waiting_for: target,
                stranded: false,
                ..old(self).process(pid)
            }));
            self.lemma_inv_without(old(self), pid);
        }
    }

    /// Blocks `pid` until somebody wakes it; as [`Self::block_waiting`]
    /// without a process to wait for.
    pub fn block(&mut self, pid: ProcessId)
        requires
            old(self).inv(),
        ensures
            final(self).inv(),
            old(self).running() && pid != old(self).current ==> final(self).running(),
            old(self).waits_ok() && old(self).can_wait_for(pid, None) ==> final(self).waits_ok(),
            if old(self).can_block(pid) {
                final(self).blocked_from(old(self), pid, None)
            } else {
                *final(self) == *old(self)
            },
    {
        self.block_waiting(pid, None);
    }

    /// The invariant survives when one process is blocked and leaves the
    /// ready queue, all else being equal.
    pub proof fn lemma_inv_without(&self, before: &ProcessManager, pid: ProcessId)
        requires
            before.inv(),
            before.has(pid),
            pid != ProcessId::kernel(),
            self.same_but_schedule(before),
            self.current == before.current,
            self.processes.wf(),
            self.has(pid),
            self.procs() == before.procs().insert(pid.0 as u64, self.process(pid)),
            self.process(pid).pid == pid,
            self.process(pid).status == ProgramStatus::Blocked,
            self.process(pid).vm == before.process(pid).vm,
            self.process(pid).data.sem_set == before.process(pid).data.sem_set,
            self.ready_queue@ == crate::queue::without(before.ready_queue@, pid),
        ensures
            self.inv(),
    {
        let q0 = before.ready_queue@;
        let q1 = self.ready_queue@;
        crate::queue::lemma_without(q0, pid);
        assert forall|k: u64| #[trigger] self.procs().contains_key(k)
        implies before.procs().contains_key(k) by {}
        assert forall|k: u64| #[trigger]
            self.procs().contains_key(k) && self.procs()[k].status == ProgramStatus::Ready && k
                != self.current.0 implies q1.contains(ProcessId(k as u16)) by {
            assert(before.procs().contains_key(k));
            assert(k != pid.0);
            assert(q0.contains(ProcessId(k as u16)));
        }
        assert forall|a: int|
            0 <= a < q1.len() implies self.procs().contains_key((#[trigger] q1[a]).0 as u64)
            && self.procs()[q1[a].0 as u64].status == ProgramStatus::Ready by {
            assert(q1.contains(q1[a]));
            assert(q1[a] != pid);
            assert(q0.contains(q1[a]));
            let b = choose|b: int| 0 <= b < q0.len() && q0[b] == q1[a];
            assert(before.procs().contains_key(q0[b].0 as u64));
        }
        assert(self.frames_inv()) by {
            assert forall|k: u64| #[trigger] self.procs().contains_key(k) implies self.procs()[k].vm.wf()
                && self.procs()[k].vm.frames().subset_of(self.frames.allocated()) by {
                assert(before.procs().contains_key(k));
            }
            assert forall|j: u64, k: u64|
                #![trigger self.procs().contains_key(j), self.procs().contains_key(k)]
                self.procs().contains_key(j) && self.procs().contains_key(k) && j != k implies self.procs()[j].vm.frames().disjoint(
                self.procs()[k].vm.frames(),
            ) by {
                assert(before.procs().contains_key(j));
                assert(before.procs().contains_key(k));
            }
        }
    }

    /// Collects the exit code of `pid` if that process is dead: the code
    /// is the answer and the process leaves the table. For a process that
    /// lives, or that the table does not hold, the answer is `None` and
    /// nothing changes.
    pub fn wait_pid(&mut self, pid: ProcessId) -> (r: Option<i64>)
        requires
            old(self).inv(),
        ensures
            final(self).inv(),
            old(self).wf() ==> final(self).wf(),
            if old(self).has(pid) && old(self).process(pid).status == ProgramStatus::Dead {
                &&& r == old(self).process(pid).exit_code
                &&& r is Some
                &&& final(self).same_but_table(old(self))
                &&& final(self).procs() == old(self).procs().remove(pid.0 as u64)
            } else {
                r is None && *final(self) == *old(self)
            },
    {
        let i = match self.processes.find(pid.0 as u64) {
            None => {
                return None;
            },
            Some(i) => i,
        };
        match self.processes.entries[i].value.status {
            ProgramStatus::Dead => {},
            _ => {
                return None;
            },
        }
        let p = self.processes.remove_at(i);
        proof {
            self.lemma_inv_removed(old(self), pid);
        }
        p.exit_code
    }

    /// The invariant survives when a dead process leaves the table, all
    /// else being equal but the frames, which may lose what that process
    /// held.
    pub proof fn lemma_inv_removed(&self, before: &ProcessManager, pid: ProcessId)
        requires
            before.inv(),
            before.has(pid),
            before.process(pid).status == ProgramStatus::Dead,
            self.same_but_table(before),
            self.processes.wf(),
            self.procs() == before.procs().remove(pid.0 as u64),
        ensures
            self.inv(),
            before.wf() ==> self.wf(),
    {
        let q0 = before.ready_queue@;
        assert forall|k: u64| #[trigger] self.procs().contains_key(k)
        implies before.procs().contains_key(k) by {}
        assert forall|a: int|
            0 <= a < q0.len() implies self.procs().contains_key((#[trigger] q0[a]).0 as u64)
            && self.procs()[q0[a].0 as u64].status == ProgramStatus::Ready by {
            assert(before.procs().contains_key(q0[a].0 as u64));
        }
        assert(self.frames_inv()) by {
            assert forall|k: u64| #[trigger] self.procs().contains_key(k) implies self.procs()[k].vm.wf()
                && self.procs()[k].vm.frames().subset_of(self.frames.allocated()) by {
                assert(before.procs().contains_key(k));
            }
            assert forall|j: u64, k: u64|
                #![trigger self.procs().contains_key(j), self.procs().contains_key(k)]
                self.procs().contains_key(j) && self.procs().contains_key(k) && j != k implies self.procs()[j].vm.frames().disjoint(
                self.procs()[k].vm.frames(),
            ) by {
                assert(before.procs().contains_key(j));
                assert(before.procs().contains_key(k));
            }
        }
    }

    /// The exit code of `pid`, if that process is dead and still in the
    /// table. Nothing is collected.
    pub fn get_exit_code(&self, pid: ProcessId) -> (r: Option<i64>)
        requires
            self.inv(),
        ensures
            r == if self.has(pid) && self.process(pid).status == ProgramStatus::Dead {
                self.process(pid).exit_code
            } else {
                None
            },
    {
        match self.processes.find(pid.0 as u64) {
            None => None,
            Some(i) => match self.processes.entries[i].value.status {
                ProgramStatus::Dead => self.processes.entries[i].value.exit_code,
                _ => None,
            },
        }
    }

    /// Whether nobody is left to collect the exit code of `pid`: it has no
    /// parent, or its parent has left the table.
    pub open spec fn orphan(&self, pid: ProcessId) -> bool {
        match self.process(pid).parent {
            None => true,
            Some(parent) => !self.has(parent),
        }
    }

    /// Whether `kill` acts on `pid`: the process is there, it is not the
    /// kernel process, and it is not dead yet.
    pub open spec fn can_kill(&self, pid: ProcessId) -> bool {
        &&& self.has(pid)
        &&& pid != ProcessId::kernel()
        &&& self.process(pid).status != ProgramStatus::Dead
    }

    /// Whether the killed process `pid` leaves the table at once: its exit
    /// code has reached a waiter, or nobody is left to collect it.
    pub open spec fn reaped_at_once(&self, pid: ProcessId) -> bool {
        waiters(self.processes.entries@, pid).len() > 0 || self.orphan(pid)
    }

    /// How `after` comes from `self` when `pid` is killed with `code`.
    /// The process ends: its frames are free again, it leaves the ready
    /// queue and the waiters of its semaphore family, and it either stays
    /// in the table, dead, with its exit code, or leaves the table at once
    /// (see [`Self::reaped_at_once`]). Its children become children of the
    /// kernel process. Those who wait for it find `code` as their result
    /// and go, in the order of the table, to the end of the ready queue.
    pub open spec fn killed(&self, after: &ProcessManager, pid: ProcessId, code: i64) -> bool {
        let set = self.process(pid).data.sem_set as int;
        &&& after.current == self.current
        &&& after.next_pid == self.next_pid
        &&& after.app_list == self.app_list
        &&& after.selectors == self.selectors
        &&& after.heap_max == self.heap_max
        &&& after.input == self.input
        &&& after.output == self.output
        &&& after.ready_queue@ == crate::queue::without(self.ready_queue@, pid) + waiters(
            self.processes.entries@,
            pid,
        )
        &&& after.semaphores@.len() == self.semaphores@.len()
        &&& forall|i: int|
            0 <= i < self.semaphores@.len() && i != set ==> after.semaphores@[i] == self.semaphores@[i]
        &&& after.semaphores@[set]@ == crate::sync::scrubbed(self.semaphores@[set]@, pid)
        &&& after.frames.allocated() == self.frames.allocated().difference(self.process(pid).vm.frames())
        &&& forall|k: u64|
            k != pid.0 ==> (#[trigger] after.procs().contains_key(k) <==> self.procs().contains_key(k))
        &&& forall|k: u64|
            k != pid.0 && self.procs().contains_key(k) ==> #[trigger] after.procs()[k] == after_death(
                self.procs()[k],
                pid,
                code,
            )
        &&& after.has(pid) <==> !self.reaped_at_once(pid)
        &&& after.has(pid) ==> {
            let d = after.process(pid);
            &&& d.status == ProgramStatus::Dead
            &&& d.exit_code == Some(code)
            &&& d.waiting_for is None
            &&& d.vm.frames() == Set::<u64>::empty()
            &&& d == (Process {
                status: d.status,
                exit_code: d.exit_code,
                waiting_for: d.waiting_for,
                vm: d.vm,
                ..self.process(pid)
            })
        }
    }

    /// Makes the kernel process the parent of the process in row `row`.
    pub(crate) fn adopt_row(&mut self, row: usize)
        requires
            old(self).inv(),
            row < old(self).processes.entries@.len(),
        ensures
            final(self).inv(),
            old(self).wf() ==> final(self).wf(),
            old(self).running() ==> final(self).running(),
            final(self).same_but_table(old(self)),
            final(self).processes.entries@.len() == old(self).processes.entries@.len(),
            forall|a: int|
                0 <= a < old(self).processes.entries@.len() && a != row ==> final(self).processes.entries@[a]
                    == old(self).processes.entries@[a],
            final(self).processes.entries@[row as int].key == old(self).processes.entries@[row as int].key,
            final(self).processes.entries@[row as int].value == (Process {
                parent: Some(ProcessId::kernel()),
                ..old(self).processes.entries@[row as int].value
            }),
    {
        proof {
            lemma_row(self.processes.entries@, row as int);
        }
        let p = &mut self.processes.entries[row].value;
        p.parent = Some(kernel_pid());
        proof {
            lemma_update(old(self).processes.entries@, self.processes.entries@, row as int);
            let q0 = old(self).ready_queue@;
            assert forall|k: u64| #[trigger] self.procs().contains_key(k)
            implies old(self).procs().contains_key(k) by {}
            assert forall|a: int|
                0 <= a < q0.len() implies self.procs().contains_key((#[trigger] q0[a]).0 as u64)
                && self.procs()[q0[a].0 as u64].status == ProgramStatus::Ready by {
                assert(old(self).procs().contains_key(q0[a].0 as u64));
            }
            assert(self.frames_inv()) by {
                assert forall|k: u64| #[trigger] self.procs().contains_key(k) implies self.procs()[k].vm.wf()
                    && self.procs()[k].vm.frames().subset_of(self.frames.allocated()) by {
                    assert(old(self).procs().contains_key(k));
                }
                assert forall|j: u64, k: u64|
                    #![trigger self.procs().contains_key(j), self.procs().contains_key(k)]
                    self.procs().contains_key(j) && self.procs().contains_key(k) && j != k implies self.procs()[j].vm.frames().disjoint(
                    self.procs()[k].vm.frames(),
                ) by {
                    assert(old(self).procs().contains_key(j));
                    assert(old(self).procs().contains_key(k));
                }
            }
        }
    }

    /// Marks the process in row `row` as one whose semaphore was dropped
    /// under it.
    pub(crate) fn strand_row(&mut self, row: usize)
        requires
            old(self).inv(),
            row < old(self).processes.entries@.len(),
        ensures
            final(self).inv(),
            old(self).wf() ==> final(self).wf(),
            old(self).running() ==> final(self).running(),
            final(self).same_but_table(old(self)),
            final(self).processes.entries@.len() == old(self).processes.entries@.len(),
            forall|a: int|
                0 <= a < old(self).processes.entries@.len() && a != row ==> final(self).processes.entries@[a]
                    == old(self).processes.entries@[a],
            final(self).processes.entries@[row as int].key == old(self).processes.entries@[row as int].key,
            final(self).processes.entries@[row as int].value == (Process {
                stranded: true,
                ..old(self).processes.entries@[row as int].value
            }),
    {
        proof {
            lemma_row(self.processes.entries@, row as int);
        }
        let p = &mut self.processes.entries[row].value;
        p.stranded = true;
        proof {
            lemma_update(old(self).processes.entries@, self.processes.entries@, row as int);
            let q0 = old(self).ready_queue@;
            assert forall|k: u64| #[trigger] self.procs().contains_key(k)
            implies old(self).procs().contains_key(k) by {}
            assert forall|a: int|
                0 <= a < q0.len() implies self.procs().contains_key((#[trigger] q0[a]).0 as u64)
                && self.procs()[q0[a].0 as u64].status == ProgramStatus::Ready by {
                assert(old(self).procs().contains_key(q0[a].0 as u64));
            }
            assert(self.frames_inv()) by {
                assert forall|k: u64| #[trigger] self.procs().contains_key(k) implies self.procs()[k].vm.wf()
                    && self.procs()[k].vm.frames().subset_of(self.frames.allocated()) by {
                    assert(old(self).procs().contains_key(k));
                }
                assert forall|j: u64, k: u64|
                    #![trigger self.procs().contains_key(j), self.procs().contains_key(k)]
                    self.procs().contains_key(j) && self.procs().contains_key(k) && j != k implies self.procs()[j].vm.frames().disjoint(
                    self.procs()[k].vm.frames(),
                ) by {
                    assert(old(self).procs().contains_key(j));
                    assert(old(self).procs().contains_key(k));
                }
            }
        }
    }

    /// Ends the process in row `row` with `code`: it is dead, its frames
    /// are free, and it has left the ready queue and the waiters of its
    /// semaphore family.
    pub(crate) fn bury_row(&mut self, row: usize, code: i64)
        requires
            old(self).inv(),
            row < old(self).processes.entries@.len(),
            old(self).processes.entries@[row as int].key != 1,
        ensures
            final(self).inv(),
            old(self).running() && old(self).processes.entries@[row as int].key != old(self).current.0
                ==> final(self).running(),
            final(self).current == old(self).current,
            final(self).next_pid == old(self).next_pid,
            final(self).app_list == old(self).app_list,
            final(self).selectors == old(self).selectors,
            final(self).heap_max == old(self).heap_max,
            final(self).input == old(self).input,
            final(self).output == old(self).output,
            final(self).processes.entries@.len() == old(self).processes.entries@.len(),
            forall|a: int|
                0 <= a < old(self).processes.entries@.len() && a != row ==> final(self).processes.entries@[a]
                    == old(self).processes.entries@[a],
            final(self).processes.entries@[row as int].key == old(self).processes.entries@[row as int].key,
            ({
                let before = old(self).processes.entries@[row as int].value;
                let d = final(self).processes.entries@[row as int].value;
                let set = before.data.sem_set as int;
                &&& d.status == ProgramStatus::Dead
                &&& d.exit_code == Some(code)
                &&& d.waiting_for is None
                &&& d.vm.frames() == Set::<u64>::empty()
                &&& d == (Process {
                    status: d.status,
                    exit_code: d.exit_code,
                    waiting_for: d.waiting_for,
                    vm: d.vm,
                    ..before
                })
                &&& final(self).ready_queue@ == crate::queue::without(old(self).ready_queue@, before.pid)
                &&& final(self).semaphores@.len() == old(self).semaphores@.len()
                &&& forall|i: int|
                    0 <= i < old(self).semaphores@.len() && i != set ==> final(self).semaphores@[i] == old(self).semaphores@[i]
                &&& final(self).semaphores@[set]@ == crate::sync::scrubbed(
                    old(self).semaphores@[set]@,
                    before.pid,
                )
                &&& final(self).frames.allocated() == old(self).frames.allocated().difference(
                    before.vm.frames(),
                )
            }),
    {
        proof {
            lemma_row(self.processes.entries@, row as int);
        }
        let ghost key = self.processes.entries@[row as int].key;
        let p = &mut self.processes.entries[row].value;
        p.vm.release(&mut self.frames);
        p.status = ProgramStatus::Dead;
        p.exit_code = Some(code);
        p.waiting_for = None;
        let pid = p.pid;
        let set = p.data.sem_set;
        crate::queue::remove_pid(&mut self.ready_queue, pid);
        let family = &mut self.semaphores[set];
        family.scrub(pid);
        proof {
            lemma_update(old(self).processes.entries@, self.processes.entries@, row as int);
            let q0 = old(self).ready_queue@;
            let q1 = self.ready_queue@;
            crate::queue::lemma_without(q0, pid);
            assert forall|k: u64| #[trigger] self.procs().contains_key(k)
            implies old(self).procs().contains_key(k) by {}
            assert forall|k: u64| #[trigger]
                self.procs().contains_key(k) && self.procs()[k].status == ProgramStatus::Ready && k
                    != self.current.0 implies q1.contains(ProcessId(k as u16)) by {
                assert(old(self).procs().contains_key(k));
                assert(k != key);
                assert(q0.contains(ProcessId(k as u16)));
            }
            assert forall|a: int|
                0 <= a < q1.len() implies self.procs().contains_key((#[trigger] q1[a]).0 as u64)
                && self.procs()[q1[a].0 as u64].status == ProgramStatus::Ready by {
                assert(q1.contains(q1[a]));
                assert(q1[a] != pid);
                assert(q0.contains(q1[a]));
                let b = choose|b: int| 0 <= b < q0.len() && q0[b] == q1[a];
                assert(old(self).procs().contains_key(q0[b].0 as u64));
            }
            assert(self.frames_inv()) by {
                assert forall|k: u64| #[trigger] self.procs().contains_key(k) implies self.procs()[k].vm.wf()
                    && self.procs()[k].vm.frames().subset_of(self.frames.allocated()) by {
                    assert(old(self).procs().contains_key(k));
                    if k != key {
                        assert(old(self).procs().contains_key(key));
                        assert(old(self).procs()[k].vm.frames().disjoint(old(self).procs()[key].vm.frames()));
                    }
                }
                assert forall|j: u64, k: u64|
                    #![trigger self.procs().contains_key(j), self.procs().contains_key(k)]
                    self.procs().contains_key(j) && self.procs().contains_key(k) && j != k implies self.procs()[j].vm.frames().disjoint(
                    self.procs()[k].vm.frames(),
                ) by {
                    assert(old(self).procs().contains_key(j));
                    assert(old(self).procs().contains_key(k));
                }
            }
            assert(self.sems_inv()) by {
                assert forall|i: int| 0 <= i < self.semaphores@.len()
                implies (#[trigger] self.semaphores@[i]).wf() by {
                    if i != set {
                        assert(self.semaphores@[i] == old(self).semaphores@[i]);
                    }
                }
                assert forall|k: u64| #[trigger] self.procs().contains_key(k)
                implies self.procs()[k].data.sem_set
                    < self.semaphores@.len() by {
                    assert(old(self).procs().contains_key(k));
                }
            }
        }
    }

    /// When a process is killed, everybody else who is blocked keeps what
    /// will wake it: who waited for the killed process has been woken, and
    /// the killed process alone has left the waiter queues.
    pub proof fn lemma_killed_keeps_waits(&self, after: &ProcessManager, pid: ProcessId, code: i64)
        requires
            self.inv(),
            self.can_kill(pid),
            self.killed(after, pid, code),
            self.waits_ok(),
        ensures
            after.waits_ok(),
    {
        let set = self.process(pid).data.sem_set as int;
        assert(self.procs().contains_key(pid.0 as u64));
        assert forall|k: u64| #[trigger] after.procs().contains_key(k) implies after.wait_ok(k) by {
            if k != pid.0 {
                assert(self.procs().contains_key(k));
                assert(self.wait_ok(k));
                let q = self.procs()[k];
                let p = after.procs()[k];
                assert(p == after_death(q, pid, code));
                if p.status == ProgramStatus::Blocked {
                    match p.waiting_for {
                        Some(t) => {
                            assert(self.procs().contains_key(t.0 as u64));
                            assert(after.procs().contains_key(t.0 as u64));
                            assert(after.procs()[t.0 as u64] == after_death(self.procs()[t.0 as u64], pid, code));
                        },
                        None => {
                            if !p.stranded {
                                let i = p.data.sem_set as int;
                                if i == set {
                                    let a = self.semaphores@[set]@;
                                    let b = after.semaphores@[set]@;
                                    assert forall|key: u32| #[trigger]
                                        a.contains_key(key) && a[key].queue.contains(p.pid)
                                    implies b.contains_key(key) && b[key].queue.contains(p.pid) by {
                                        crate::queue::lemma_without(a[key].queue, pid);
                                    }
                                    crate::sync::lemma_still_queued(a, b, p.pid);
                                } else {
                                    assert(after.semaphores@[i] == self.semaphores@[i]);
                                }
                            }
                        },
                    }
                }
            }
        }
    }

    /// Kills the process `pid` with the exit code `code`, as
    /// [`Self::killed`] says. The kernel process cannot be killed, and for
    /// a process that is dead or not there nothing changes.
    pub fn kill(&mut self, pid: ProcessId, code: i64)
        requires
            old(self).inv(),
        ensures
            final(self).inv(),
            old(self).wf() && pid != old(self).current ==> final(self).wf(),
            old(self).waits_ok() ==> final(self).waits_ok(),
            if old(self).can_kill(pid) {
                old(self).killed(final(self), pid, code)
            } else {
                *final(self) == *old(self)
            },
    {
        if pid.0 == 1 {
            return ;
        }
        let i = match self.processes.find(pid.0 as u64) {
            None => {
                return ;
            },
            Some(i) => i,
        };
        match self.processes.entries[i].value.status {
            ProgramStatus::Dead => {
                return ;
            },
            _ => {},
        }
        let orphan = match self.processes.entries[i].value.parent {
            None => true,
            Some(parent) => self.processes.find(parent.0 as u64).is_none(),
        };
        assert(orphan == old(self).orphan(pid));
        assert(old(self).processes.entries@[i as int].value.pid == pid);
        self.bury_row(i, code);
        let ghost mid = *self;
        let ghost rows0 = old(self).processes.entries@;
        let ghost rows1 = mid.processes.entries@;
        let n = self.processes.entries.len();
        let mut delivered = false;
        let mut j: usize = 0;
        while j < n
            invariant
                self.inv(),
                j <= n,
                i < n,
                n == rows1.len(),
                rows1 == mid.processes.entries@,
                mid.inv(),
                rows1[i as int].value.status == ProgramStatus::Dead,
                rows1[i as int].value.pid == pid,
                self.processes.entries@.len() == n,
                self.same_but_schedule(&mid),
                self.current == mid.current,
                old(self).running() && pid != old(self).current ==> self.running(),
                forall|a: int| 0 <= a < n ==> (#[trigger] self.processes.entries@[a]).key == rows1[a].key,
                forall|a: int|
                    0 <= a < j && a != i ==> (#[trigger] self.processes.entries@[a]).value == after_death(
                        rows1[a].value,
                        pid,
                        code,
                    ),
                forall|a: int|
                    (j <= a < n || a == i) ==> (#[trigger] self.processes.entries@[a]) == rows1[a],
                self.ready_queue@ == mid.ready_queue@ + waiters(rows1.take(j as int), pid),
                delivered == (waiters(rows1.take(j as int), pid).len() > 0),
            decreases n - j,
        {
            proof {
                assert(rows1.take(j + 1).drop_last() == rows1.take(j as int));
                assert(rows1.take(j + 1).last() == rows1[j as int]);
                lemma_row(rows1, j as int);
                lemma_row(rows1, i as int);
            }
            if j != i {
                let adopt = match self.processes.entries[j].value.parent {
                    Some(parent) => parent.0 == pid.0,
                    None => false,
                };
                if adopt {
                    self.adopt_row(j);
                }
                let waits = match self.processes.entries[j].value.status {
                    ProgramStatus::Blocked => match self.processes.entries[j].value.waiting_for {
                        Some(target) => target.0 == pid.0,
                        None => false,
                    },
                    _ => false,
                };
                proof {
                    assert(rows1[j as int].value.pid != pid) by {
                        assert(mid.procs().contains_key(rows1[j as int].key));
                        assert(mid.procs().contains_key(rows1[i as int].key));
                        assert(rows1[j as int].key != rows1[i as int].key);
                    }
                    assert(waits == waits_for(rows1[j as int].value, pid));
                }
                if waits {
                    self.wake_row(j, code as u64);
                    delivered = true;
                    proof {
                        let w = waiters(rows1.take(j as int), pid);
                        assert(self.ready_queue@ == (mid.ready_queue@ + w).push(rows1[j as int].value.pid));
                        assert((mid.ready_queue@ + w).push(rows1[j as int].value.pid) == mid.ready_queue@
                            + w.push(rows1[j as int].value.pid));
                    }
                }
            }
            j += 1;
        }
        proof {
            assert(rows1.take(n as int) == rows1);
            lemma_waiters_ignore_target(rows0, rows1, pid);
        }
        let ghost end = *self;
        if delivered || orphan {
            proof {
                lemma_row(self.processes.entries@, i as int);
            }
            let _ = self.processes.remove_at(i);
            proof {
                self.lemma_inv_removed(&end, pid);
            }
        }
        proof {
            let rows2 = end.processes.entries@;
            lemma_row(rows0, i as int);
            lemma_row(rows2, i as int);
            assert forall|k: u64| k != pid.0 implies (#[trigger] self.procs().contains_key(k)
                <==> old(self).procs().contains_key(k)) by {
                lemma_keys(rows0);
                lemma_keys(rows2);
                if end.procs().contains_key(k) {
                    lemma_key_row(rows2, k);
                    let a = crate::table::slot_of(rows2, k);
                    assert(rows0[a].key == k);
                }
                if old(self).procs().contains_key(k) {
                    lemma_key_row(rows0, k);
                    let a = crate::table::slot_of(rows0, k);
                    assert(rows2[a].key == k);
                }
            }
            assert forall|k: u64| k != pid.0 && old(self).procs().contains_key(k)
            implies #[trigger] self.procs()[k]
                == after_death(old(self).procs()[k], pid, code) by {
                lemma_key_row(rows0, k);
                let a = crate::table::slot_of(rows0, k);
                assert(rows2[a].key == k);
                lemma_row(rows2, a);
                assert(a != i);
                assert(rows1[a] == rows0[a]);
            }
            if old(self).waits_ok() {
                old(self).lemma_killed_keeps_waits(self, pid, code);
            }
        }
    }

    /// Kills the current process with the exit code `code`; see
    /// [`Self::kill`]. The processor must be given to another process
    /// next.
    pub fn kill_self(&mut self, code: i64)
        requires
            old(self).inv(),
        ensures
            final(self).inv(),
            old(self).waits_ok() ==> final(self).waits_ok(),
            if old(self).can_kill(old(self).current) {
                old(self).killed(final(self), old(self).current, code)
            } else {
                *final(self) == *old(self)
            },
    {
        let pid = self.current;
        self.kill(pid, code);
    }

    /// The family of semaphores of the current process.
    pub open spec fn family(&self) -> Map<u32, SemState> {
        self.semaphores@[self.process(self.current).data.sem_set as int]@
    }

    /// Nothing but the one family of semaphores `set` differs between
    /// `self` and `before`.
    pub open spec fn same_but_family(&self, before: &ProcessManager, set: int) -> bool {
        &&& *self == (ProcessManager { semaphores: self.semaphores, ..*before })
        &&& self.semaphores@.len() == before.semaphores@.len()
        &&& forall|i: int|
            0 <= i < before.semaphores@.len() && i != set ==> self.semaphores@[i] == before.semaphores@[i]
    }

    /// The invariant survives a change of one family of semaphores that
    /// leaves the family sound.
    pub proof fn lemma_inv_family(&self, before: &ProcessManager, set: int)
        requires
            before.inv(),
            0 <= set < before.semaphores@.len(),
            self.same_but_family(before, set),
            self.semaphores@[set].wf(),
        ensures
            self.inv(),
            before.running() ==> self.running(),
    {
        assert forall|i: int| 0 <= i < self.semaphores@.len()
        implies (#[trigger] self.semaphores@[i]).wf() by {
            if i != set {
                assert(self.semaphores@[i] == before.semaphores@[i]);
            }
        }
    }

    /// Who had what will wake it keeps it through a change of one family
    /// of semaphores that takes nobody but `skip` out of a waiter queue.
    pub proof fn lemma_waits_family(&self, before: &ProcessManager, set: int, skip: Option<ProcessId>)
        requires
            before.inv(),
            0 <= set < before.semaphores@.len(),
            self.same_but_family(before, set),
            forall|key: u32, pid: ProcessId|
                Some(pid) != skip && before.semaphores@[set]@.contains_key(key)
                    && #[trigger] before.semaphores@[set]@[key].queue.contains(pid)
                    ==> self.semaphores@[set]@.contains_key(key) && self.semaphores@[set]@[key].queue.contains(
                    pid,
                ),
        ensures
            before.waits_ok() ==> match skip {
                Some(h) => self.waits_ok_besides(h),
                None => self.waits_ok(),
            },
    {
        if before.waits_ok() {
            assert forall|k: u64| #[trigger] self.procs().contains_key(k) && skip != Some(ProcessId(k as u16))
            implies self.wait_ok(k) by {
                assert(before.wait_ok(k));
                let p = self.procs()[k];
                assert(p.pid == ProcessId(k as u16));
                if p.status == ProgramStatus::Blocked && p.waiting_for is None && !p.stranded {
                    let i = p.data.sem_set as int;
                    if i == set {
                        crate::sync::lemma_still_queued(
                            before.semaphores@[set]@,
                            self.semaphores@[set]@,
                            p.pid,
                        );
                    } else {
                        assert(self.semaphores@[i] == before.semaphores@[i]);
                    }
                }
            }
        }
    }

    /// The units that the semaphore under `key` of the family of the
    /// current process has left, if there is one.
    pub fn sem_count(&self, key: u32) -> (r: Option<u64>)
        requires
            self.inv(),
            self.has(self.current),
        ensures
            r == if self.family().contains_key(key) {
                Some(self.family()[key].count)
            } else {
                None
            },
    {
        let set = self.current().data.sem_set;
        self.semaphores[set].count(key)
    }

    /// Adds a semaphore with `value` units under `key` to the family of
    /// the current process, unless the key is taken there, and says
    /// whether it was added.
    pub fn sem_new(&mut self, key: u32, value: u64) -> (added: bool)
        requires
            old(self).inv(),
            old(self).has(old(self).current),
        ensures
            final(self).inv(),
            old(self).wf() ==> final(self).wf(),
            final(self).same_but_family(
                old(self),
                old(self).process(old(self).current).data.sem_set as int,
            ),
            added == !old(self).family().contains_key(key),
            !added ==> *final(self) == *old(self),
            final(self).family() == if added {
                old(self).family().insert(key, SemState { count: value, queue: Seq::empty() })
            } else {
                old(self).family()
            },
    {
        let set = self.current().data.sem_set;
        if self.semaphores[set].contains(key) {
            return false;
        }
        let family = &mut self.semaphores[set];
        let added = family.insert(key, value);
        proof {
            self.lemma_inv_family(old(self), set as int);
            self.lemma_waits_family(old(self), set as int, None);
        }
        added
    }

    /// `self` is `before` after [`Self::sem_remove`] has dropped the
    /// semaphore under `key`: the semaphore is gone from the family of the
    /// current process, and those whom [`loses_place`] names are marked as
    /// stranded.
    pub open spec fn sem_removed_from(&self, before: &ProcessManager, key: u32) -> bool {
        let set = before.process(before.current).data.sem_set;
        let queue = before.family()[key].queue;
        &&& *self == (ProcessManager {
            processes: self.processes,
            semaphores: self.semaphores,
            ..*before
        })
        &&& self.semaphores@.len() == before.semaphores@.len()
        &&& forall|i: int|
            0 <= i < before.semaphores@.len() && i != set ==> self.semaphores@[i] == before.semaphores@[i]
        &&& self.semaphores@[set as int]@ == before.family().remove(key)
        &&& forall|k: u64| #[trigger] self.procs().contains_key(k) <==> before.procs().contains_key(k)
        &&& forall|k: u64|
            before.procs().contains_key(k) ==> #[trigger] self.procs()[k] == marked(
                before.procs()[k],
                set,
                queue,
            )
    }

    /// Drops the semaphore under `key` from the family of the current
    /// process, and says whether there was one. Its waiters are not
    /// woken: those of them who are blocked on it are marked as stranded.
    pub fn sem_remove(&mut self, key: u32) -> (removed: bool)
        requires
            old(self).inv(),
            old(self).has(old(self).current),
        ensures
            final(self).inv(),
            old(self).wf() ==> final(self).wf(),
            old(self).running() ==> final(self).running(),
            old(self).waits_ok() ==> final(self).waits_ok(),
            removed == old(self).family().contains_key(key),
            !removed ==> *final(self) == *old(self),
            removed ==> final(self).sem_removed_from(old(self), key),
    {
        let set = self.current().data.sem_set;
        let at = match self.semaphores[set].sems.find(key as u64) {
            None => {
                return false;
            },
            Some(at) => at,
        };
        let ghost rows0 = self.processes.entries@;
        let ghost queue = self.family()[key].queue;
        let n = self.processes.entries.len();
        let mut j: usize = 0;
        while j < n
            invariant
                self.inv(),
                old(self).inv(),
                old(self).running() ==> self.running(),
                self.same_but_table(old(self)),
                rows0 == old(self).processes.entries@,
                n == rows0.len(),
                self.processes.entries@.len() == n,
                j <= n,
                set < self.semaphores@.len(),
                at < self.semaphores@[set as int].sems.entries@.len(),
                self.semaphores@[set as int].sems.entries@[at as int].value.wait_queue@ == queue,
                forall|a: int| 0 <= a < n ==> (#[trigger] self.processes.entries@[a]).key == rows0[a].key,
                forall|a: int|
                    0 <= a < j ==> (#[trigger] self.processes.entries@[a]).value == marked(
                        rows0[a].value,
                        set,
                        queue,
                    ),
                forall|a: int| j <= a < n ==> (#[trigger] self.processes.entries@[a]) == rows0[a],
            decreases n - j,
        {
            let hit = match self.processes.entries[j].value.status {
                ProgramStatus::Blocked => self.processes.entries[j].value.waiting_for.is_none()
                    && self.processes.entries[j].value.data.sem_set == set && crate::queue::queue_contains(
                    &self.semaphores[set].sems.entries[at].value.wait_queue,
                    self.processes.entries[j].value.pid,
                ),
                _ => false,
            };
            assert(hit == loses_place(rows0[j as int].value, set, queue));
            if hit {
                self.strand_row(j);
            }
            j += 1;
        }
        let ghost mid = *self;
        let family = &mut self.semaphores[set];
        let removed = family.remove(key);
        proof {
            self.lemma_inv_family(&mid, set as int);
            let rows2 = self.processes.entries@;
            lemma_keys(rows0);
            lemma_keys(rows2);
            assert forall|k: u64| #[trigger] self.procs().contains_key(k) <==> old(self).procs().contains_key(k) by {
                if self.procs().contains_key(k) {
                    lemma_key_row(rows2, k);
                    let a = crate::table::slot_of(rows2, k);
                    assert(rows0[a].key == k);
                }
                if old(self).procs().contains_key(k) {
                    lemma_key_row(rows0, k);
                    let a = crate::table::slot_of(rows0, k);
                    assert(rows2[a].key == k);
                }
            }
            assert forall|k: u64| old(self).procs().contains_key(k)
            implies #[trigger] self.procs()[k] == marked(old(self).procs()[k], set, queue) by {
                lemma_key_row(rows0, k);
                let a = crate::table::slot_of(rows0, k);
                assert(rows2[a].key == k);
                lemma_row(rows2, a);
            }
            if old(self).waits_ok() {
                assert forall|k: u64| #[trigger] self.procs().contains_key(k) implies self.wait_ok(k) by {
                    assert(old(self).procs().contains_key(k));
                    assert(old(self).wait_ok(k));
                    let q = old(self).procs()[k];
                    let p = self.procs()[k];
                    assert(p == marked(q, set, queue));
                    if p.status == ProgramStatus::Blocked {
                        match p.waiting_for {
                            Some(t) => {
                                assert(old(self).procs().contains_key(t.0 as u64));
                                assert(self.procs()[t.0 as u64] == marked(
                                    old(self).procs()[t.0 as u64],
                                    set,
                                    queue,
                                ));
                            },
                            None => {
                                if !p.stranded {
                                    let i = p.data.sem_set as int;
                                    if i == set {
                                        crate::sync::lemma_still_queued(
                                            old(self).semaphores@[i]@,
                                            self.semaphores@[i]@,
                                            p.pid,
                                        );
                                    } else {
                                        assert(self.semaphores@[i] == old(self).semaphores@[i]);
                                    }
                                }
                            },
                        }
                    }
                }
            }
        }
        removed
    }

    /// A wait by `pid` on the semaphore under `key` of the family of the
    /// current process: a unit is taken, or `pid` joins the waiters and
    /// the answer asks for it to be blocked.
    pub fn sem_wait(&mut self, key: u32, pid: ProcessId) -> (r: SemaphoreResult)
        requires
            old(self).inv(),
            old(self).has(old(self).current),
            pid == old(self).current,
        ensures
            final(self).inv(),
            old(self).wf() ==> final(self).wf(),
            r is Block ==> final(self).can_wait_for(pid, None),
            final(self).same_but_family(
                old(self),
                old(self).process(old(self).current).data.sem_set as int,
            ),
            !old(self).family().contains_key(key) ==> r == SemaphoreResult::NotExist && *final(self) == *old(self),
            old(self).family().contains_key(key) ==> r == wait_step(old(self).family()[key], pid).1
                && final(self).family() == old(self).family().insert(
                key,
                wait_step(old(self).family()[key], pid).0,
            ),
    {
        let set = self.current().data.sem_set;
        if !self.semaphores[set].contains(key) {
            return SemaphoreResult::NotExist;
        }
        let family = &mut self.semaphores[set];
        let r = family.wait(key, pid);
        proof {
            self.lemma_inv_family(old(self), set as int);
            let q0 = old(self).family()[key].queue;
            crate::queue::lemma_push_fresh(q0, pid);
            self.lemma_waits_family(old(self), set as int, None);
            if r is Block {
                assert(self.family().contains_key(key) && self.family()[key].queue.contains(pid));
            }
        }
        r
    }

    /// A signal on the semaphore under `key` of the family of the current
    /// process: the oldest waiter is handed the unit and the answer asks
    /// for it to be woken, or the unit goes to the counter.
    pub fn sem_signal(&mut self, key: u32) -> (r: SemaphoreResult)
        requires
            old(self).inv(),
            old(self).has(old(self).current),
        ensures
            final(self).inv(),
            old(self).running() ==> final(self).running(),
            old(self).waits_ok() ==> match r {
                SemaphoreResult::WakeUp(woken) => final(self).waits_ok_besides(woken),
                _ => final(self).waits_ok(),
            },
            final(self).same_but_family(
                old(self),
                old(self).process(old(self).current).data.sem_set as int,
            ),
            !old(self).family().contains_key(key) ==> r == SemaphoreResult::NotExist && *final(self) == *old(self),
            old(self).family().contains_key(key) ==> r == signal_step(old(self).family()[key]).1
                && final(self).family() == old(self).family().insert(
                key,
                signal_step(old(self).family()[key]).0,
            ),
    {
        let set = self.current().data.sem_set;
        if !self.semaphores[set].contains(key) {
            return SemaphoreResult::NotExist;
        }
        let family = &mut self.semaphores[set];
        let r = family.signal(key);
        proof {
            self.lemma_inv_family(old(self), set as int);
            let q0 = old(self).family()[key].queue;
            let skip = match r {
                SemaphoreResult::WakeUp(woken) => Some(woken),
                _ => None,
            };
            assert forall|pid: ProcessId| Some(pid) != skip && #[trigger] q0.contains(pid)
            implies self.family()[key].queue.contains(pid) by {
                if q0.len() > 0 {
                    let i = choose|i: int| 0 <= i < q0.len() && q0[i] == pid;
                    assert(i != 0);
                    assert(q0.subrange(1, q0.len() as int)[i - 1] == pid);
                }
            }
            self.lemma_waits_family(old(self), set as int, skip);
        }
        r
    }

    /// Nothing but the address space of `pid` and the frames differs
    /// between `self` and `before`.
    pub open spec fn same_but_memory(&self, before: &ProcessManager, pid: ProcessId) -> bool {
        &&& *self == (ProcessManager { processes: self.processes, frames: self.frames, ..*before })
        &&& self.procs() == before.procs().insert(
            pid.0 as u64,
            Process { vm: self.process(pid).vm, ..before.process(pid) },
        )
    }

    /// The invariant survives a change of one address space that keeps it
    /// sound and exchanges its frames with the free ones only.
    pub proof fn lemma_inv_memory(&self, before: &ProcessManager, pid: ProcessId)
        requires
            before.inv(),
            before.has(pid),
            before.process(pid).status != ProgramStatus::Dead,
            self.processes.wf(),
            self.same_but_memory(before, pid),
            self.frames.wf(),
            self.process(pid).vm.wf(),
            self.process(pid).vm.frames().subset_of(self.frames.allocated()),
            frames_exchanged(
                before.process(pid).vm.frames(),
                self.process(pid).vm.frames(),
                before.frames.allocated(),
                self.frames.allocated(),
            ),
        ensures
            self.inv(),
            before.wf() ==> self.wf(),
    {
        let q0 = before.ready_queue@;
        let key = pid.0 as u64;
        assert forall|k: u64| #[trigger] self.procs().contains_key(k)
        implies before.procs().contains_key(k) by {}
        assert forall|a: int|
            0 <= a < q0.len() implies self.procs().contains_key((#[trigger] q0[a]).0 as u64)
            && self.procs()[q0[a].0 as u64].status == ProgramStatus::Ready by {
            assert(before.procs().contains_key(q0[a].0 as u64));
        }
        assert(self.frames_inv()) by {
            assert forall|k: u64| #[trigger] self.procs().contains_key(k) implies self.procs()[k].vm.wf()
                && self.procs()[k].vm.frames().subset_of(self.frames.allocated()) by {
                assert(before.procs().contains_key(k));
                if k != key {
                    assert(before.procs().contains_key(key));
                    assert(before.procs()[k].vm.frames().disjoint(before.procs()[key].vm.frames()));
                }
            }
            assert forall|j: u64, k: u64|
                #![trigger self.procs().contains_key(j), self.procs().contains_key(k)]
                self.procs().contains_key(j) && self.procs().contains_key(k) && j != k implies self.procs()[j].vm.frames().disjoint(
                self.procs()[k].vm.frames(),
            ) by {
                assert(before.procs().contains_key(j));
                assert(before.procs().contains_key(k));
                assert(before.procs().contains_key(key));
                assert(before.procs()[j].vm.frames().disjoint(before.procs()[k].vm.frames()));
            }
        }
    }

    /// Answers a page fault of the current process at the address `addr`:
    /// a page of its stack range that is not mapped yet is mapped on a free
    /// frame, and the answer is `true`. Any other fault is answered
    /// `false` and changes nothing; the caller then ends the process.
    pub fn handle_page_fault(&mut self, addr: u64, err_code: u64) -> (handled: bool)
        requires
            old(self).inv(),
            old(self).running(),
        ensures
            final(self).inv(),
            old(self).wf() ==> final(self).wf(),
            handled == old(self).process(old(self).current).vm.answers_fault(
                addr,
                err_code,
                old(self).frames.available(),
            ),
            !handled ==> *final(self) == *old(self),
            handled ==> final(self).same_but_memory(old(self), old(self).current) && old(self).process(
                old(self).current,
            ).vm.faulted_in(&final(self).process(old(self).current).vm, addr, old(self).frames.allocated()),
    {
        let pid = self.current;
        let i = self.processes.find(pid.0 as u64).unwrap();
        if !self.processes.entries[i].value.vm.fault_answerable(addr, err_code, &self.frames) {
            return false;
        }
        let p = &mut self.processes.entries[i].value;
        let handled = p.vm.handle_page_fault(addr, err_code, &mut self.frames);
        proof {
            lemma_update(old(self).processes.entries@, self.processes.entries@, i as int);
            assert(self.processes.entries@[i as int].value == (Process {
                vm: self.processes.entries@[i as int].value.vm,
                ..old(self).process(pid)
            }));
            self.lemma_inv_memory(old(self), pid);
        }
        handled
    }

    /// Reports the end of the current process's heap, or moves it to the
    /// address given, rounded up to a page; a request that cannot be met
    /// changes nothing. The answer is the address at which the heap ends
    /// afterwards.
    pub fn brk(&mut self, addr: Option<u64>) -> (end: u64)
        requires
            old(self).inv(),
            old(self).running(),
        ensures
            final(self).inv(),
            old(self).wf() ==> final(self).wf(),
            final(self).has(old(self).current),
            end == final(self).process(old(self).current).vm.heap_end_addr(),
            match addr {
                None => *final(self) == *old(self),
                Some(a) => if old(self).process(old(self).current).vm.brk_moves(
                    a,
                    old(self).frames.available(),
                ) {
                    &&& final(self).same_but_memory(old(self), old(self).current)
                    &&& old(self).process(old(self).current).vm.moved_to(
                        &final(self).process(old(self).current).vm,
                        a,
                        old(self).frames.allocated(),
                    )
                } else {
                    *final(self) == *old(self)
                },
            },
    {
        let pid = self.current;
        let i = self.processes.find(pid.0 as u64).unwrap();
        let moves = match addr {
            None => false,
            Some(a) => self.processes.entries[i].value.vm.heap_movable(a, &self.frames),
        };
        if !moves {
            return self.processes.entries[i].value.vm.heap_end * PAGE_SIZE;
        }
        let p = &mut self.processes.entries[i].value;
        let end = p.vm.brk(addr, &mut self.frames);
        proof {
            lemma_update(old(self).processes.entries@, self.processes.entries@, i as int);
            assert(self.processes.entries@[i as int].value == (Process {
                vm: self.processes.entries@[i as int].value.vm,
                ..old(self).process(pid)
            }));
            self.lemma_inv_memory(old(self), pid);
        }
        end
    }

    /// Whether the `len` bytes from the address `addr` lie on pages that
    /// the current process has mapped.
    pub fn user_range_mapped(&self, addr: u64, len: u64) -> (b: bool)
        requires
            self.inv(),
            self.has(self.current),
        ensures
            b == self.process(self.current).vm.range_mapped(addr, len),
    {
        self.current().vm.holds_range(addr, len)
    }

    /// The value of the variable `key` in the environment of the current
    /// process.
    pub fn env(&self, key: &str) -> (r: Option<String>)
        requires
            self.inv(),
            self.has(self.current),
        ensures
            match r {
                Some(v) => env_lookup(self.process(self.current).data.env@, key@) == Some(v@),
                None => env_lookup(self.process(self.current).data.env@, key@) is None,
            },
    {
        self.current().data.env(key)
    }

    /// The programs that can be started by name, if a list was given.
    pub fn app_list(&self) -> (r: Option<&ArrayVec<App, 16>>)
        ensures
            match r {
                Some(apps) => self.app_list == Some(*apps),
                None => self.app_list is None,
            },
    {
        self.app_list.as_ref()
    }

    /// The row of the first program named `name` in the list of programs.
    pub fn find_app(&self, name: &str) -> (r: Option<usize>)
        ensures
            match self.app_list {
                None => r is None,
                Some(apps) => match r {
                    Some(i) => app_index(listed(apps), name@) == Some(i as int) && i < listed(apps).len()
                        && listed(apps)[i as int].name@ == name@,
                    None => app_index(listed(apps), name@) is None,
                },
            },
    {
        match &self.app_list {
            None => None,
            Some(apps) => find_app(apps, name),
        }
    }

    /// One line for each process of the table, in the order in which the
    /// processes came.
    pub fn print_process_list(&self) -> (r: Vec<ProcessInfo>)
        ensures
            r@.len() == self.processes.entries@.len(),
            forall|i: int|
                0 <= i < r@.len() ==> (#[trigger] r@[i]).describes(self.processes.entries@[i].value),
    {
        let mut out: Vec<ProcessInfo> = Vec::new();
        let mut i: usize = 0;
        while i < self.processes.entries.len()
            invariant
                i <= self.processes.entries@.len(),
                out@.len() == i,
                forall|j: int| 0 <= j < i ==> (#[trigger] out@[j]).describes(self.processes.entries@[j].value),
            decreases self.processes.entries@.len() - i,
        {
            let p = &self.processes.entries[i].value;
            out.push(
                ProcessInfo {
                    pid: p.pid,
                    parent: p.parent,
                    name: p.name.clone(),
                    status: p.status,
                    ticks_passed: p.ticks_passed,
                    pages: p.vm.page_table.table.len(),
                    exit_code: p.exit_code,
                },
            );
            i += 1;
        }
        out
    }

    /// What a read of at most `room` bytes from the descriptor `fd` of
    /// the current process yields: the oldest bytes of the input, for the
    /// descriptor of the input; nothing for any other descriptor.
    pub open spec fn readable(&self, fd: u8, room: nat) -> Option<Seq<u8>> {
        if stream_at(self.process(self.current).data.streams@, fd) == Some(Stream::Stdin) {
            Some(
                self.input@.take(
                    if room < self.input@.len() {
                        room as int
                    } else {
                        self.input@.len() as int
                    },
                ),
            )
        } else {
            None
        }
    }

    /// Reads from the descriptor `fd` of the current process into `buf`:
    /// the oldest bytes of the input, as many as there are and as `buf`
    /// has room for, leave the input and replace the first bytes of `buf`.
    /// The answer is their number, or -1 for a descriptor that cannot be
    /// read.
    pub fn read(&mut self, fd: u8, buf: &mut Vec<u8>) -> (n: i64)
        requires
            old(self).inv(),
            old(self).has(old(self).current),
            old(buf)@.len() <= i64::MAX,
        ensures
            final(self).inv(),
            old(self).wf() ==> final(self).wf(),
            *final(self) == (ProcessManager { input: final(self).input, ..*old(self) }),
            final(buf)@.len() == old(buf)@.len(),
            match old(self).readable(fd, old(buf)@.len()) {
                None => n == -1 && final(self).input == old(self).input && final(buf)@ == old(buf)@,
                Some(bytes) => {
                    &&& n == bytes.len()
                    &&& final(buf)@ == bytes + old(buf)@.skip(n as int)
                    &&& final(self).input@ == old(self).input@.skip(n as int)
                },
            },
    {
        match self.current().data.stream(fd) {
            Some(Stream::Stdin) => {},
            _ => {
                return -1;
            },
        }
        let mut n: usize = 0;
        while n < buf.len() && self.input.len() > 0
            invariant
                old(self).inv(),
                *self == (ProcessManager { input: self.input, ..*old(self) }),
                buf@.len() == old(buf)@.len(),
                buf@.len() <= i64::MAX,
                n <= buf@.len(),
                n <= old(self).input@.len(),
                self.input@ == old(self).input@.skip(n as int),
                buf@ == old(self).input@.take(n as int) + old(buf)@.skip(n as int),
            decreases buf@.len() - n,
        {
            let b = self.input.pop_front().unwrap();
            buf.set(n, b);
            proof {
                assert(self.input@ =~= old(self).input@.skip(n + 1));
                assert(buf@ =~= old(self).input@.take(n + 1) + old(buf)@.skip(n + 1));
            }
            n += 1;
        }
        proof {
            assert(old(self).input@.skip(0) =~= old(self).input@);
        }
        n as i64
    }

    /// Writes `buf` to the descriptor `fd` of the current process: for
    /// the descriptors of output and of complaints the bytes are appended
    /// to the output and the answer is their number; for any other
    /// descriptor the answer is -1 and nothing is written.
    pub fn write(&mut self, fd: u8, buf: &Vec<u8>) -> (n: i64)
        requires
            old(self).inv(),
            old(self).has(old(self).current),
            buf@.len() <= i64::MAX,
        ensures
            final(self).inv(),
            old(self).wf() ==> final(self).wf(),
            *final(self) == (ProcessManager { output: final(self).output, ..*old(self) }),
            match stream_at(old(self).process(old(self).current).data.streams@, fd) {
                Some(Stream::Stdout) | Some(Stream::Stderr) => n == buf@.len() && final(self).output@ == old(self).output@ + buf@,
                _ => n == -1 && final(self).output == old(self).output,
            },
    {
        match self.current().data.stream(fd) {
            Some(Stream::Stdout) => {},
            Some(Stream::Stderr) => {},
            _ => {
                return -1;
            },
        }
        let mut i: usize = 0;
        while i < buf.len()
            invariant
                old(self).inv(),
                *self == (ProcessManager { output: self.output, ..*old(self) }),
                i <= buf@.len(),
                self.output@ == old(self).output@ + buf@.take(i as int),
            decreases buf@.len() - i,
        {
            self.output.push(buf[i]);
            proof {
                assert(buf@.take(i + 1) =~= buf@.take(i as int).push(buf@[i as int]));
                assert(self.output@ =~= old(self).output@ + buf@.take(i + 1));
            }
            i += 1;
        }
        proof {
            assert(buf@.take(buf@.len() as int) =~= buf@);
        }
        buf.len() as i64
    }
}

/// Whether `q` loses its place when the semaphore with the waiters `queue`
/// is dropped from the family `set`: it is blocked, waits for no process,
/// belongs to that family and stands in that queue.
pub open spec fn loses_place(q: Process, set: usize, queue: Seq<ProcessId>) -> bool {
    q.status == ProgramStatus::Blocked && q.waiting_for is None && q.data.sem_set == set && queue.contains(
        q.pid,
    )
}

/// The process `q` as the drop of that semaphore leaves it: marked as
/// stranded if it loses its place, else as it was.
pub open spec fn marked(q: Process, set: usize, queue: Seq<ProcessId>) -> Process {
    if loses_place(q, set, queue) {
        Process { stranded: true, ..q }
    } else {
        q
    }
}

/// Whether `q` is blocked until `t` exits.
pub open spec fn waits_for(q: Process, t: ProcessId) -> bool {
    q.pid != t && q.status == ProgramStatus::Blocked && q.waiting_for == Some(t)
}

/// The process `q` as the death of `t` with the exit code `code` leaves
/// it: a child of `t` becomes a child of the kernel process, and a process
/// that waited for `t` is woken with the code as its result.
pub open spec fn after_death(q: Process, t: ProcessId, code: i64) -> Process {
    let adopted = if q.parent == Some(t) {
        Process { parent: Some(ProcessId::kernel()), ..q }
    } else {
        q
    };
    if adopted.status == ProgramStatus::Blocked && adopted.waiting_for == Some(t) {
        adopted.woken(code as u64)
    } else {
        adopted
    }
}

/// The processes of `rows` that wait for `t`, in the order of the rows.
pub open spec fn waiters(rows: Seq<Entry<Process>>, t: ProcessId) -> Seq<ProcessId>
    decreases rows.len(),
{
    if rows.len() == 0 {
        Seq::empty()
    } else if waits_for(rows.last().value, t) {
        waiters(rows.drop_last(), t).push(rows.last().value.pid)
    } else {
        waiters(rows.drop_last(), t)
    }
}

/// What becomes of the row of `t` itself does not change who waits for
/// `t`.
pub proof fn lemma_waiters_ignore_target(a: Seq<Entry<Process>>, b: Seq<Entry<Process>>, t: ProcessId)
    requires
        a.len() == b.len(),
        forall|i: int|
            0 <= i < a.len() ==> (#[trigger] a[i]) == b[i] || (a[i].value.pid == t && b[i].value.pid == t),
    ensures
        waiters(a, t) == waiters(b, t),
    decreases a.len(),
{
    if a.len() > 0 {
        let a1 = a.drop_last();
        let b1 = b.drop_last();
        assert forall|i: int| 0 <= i < a1.len() implies (#[trigger] a1[i]) == b1[i] || (a1[i].value.pid == t
            && b1[i].value.pid == t) by {
            assert(a1[i] == a[i] && b1[i] == b[i]);
        }
        lemma_waiters_ignore_target(a1, b1, t);
        assert(a.last() == a[a.len() - 1]);
        assert(b.last() == b[a.len() - 1]);
    }
}

} // verus!
