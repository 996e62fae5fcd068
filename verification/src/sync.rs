use std::collections::VecDeque;
use vstd::prelude::*;

use crate::pid::ProcessId;
use crate::queue::{remove_pid, without};
use crate::table::{lemma_row, lemma_update, Table};

verus! {

/// What a semaphore operation asks of the scheduler.
#[derive(Clone, Copy, Debug, PartialEq, Eq, Structural)]
pub enum SemaphoreResult {
    /// Done; the caller goes on.
    Done,
    /// No semaphore has that key.
    NotExist,
    /// The caller, named here, has joined the waiters and must be blocked.
    Block(ProcessId),
    /// The process named here was the longest waiting and must be woken.
    WakeUp(ProcessId),
}

/// The model of one semaphore: its counter and its waiters, oldest first.
pub struct SemState {
    pub count: u64,
    pub queue: Seq<ProcessId>,
}

/// A wait by `pid`: take a unit if there is one, else join the waiters.
pub open spec fn wait_step(s: SemState, pid: ProcessId) -> (SemState, SemaphoreResult) {
    if s.count > 0 {
        (SemState { count: (s.count - 1) as u64, queue: s.queue }, SemaphoreResult::Done)
    } else {
        (SemState { count: s.count, queue: s.queue.push(pid) }, SemaphoreResult::Block(pid))
    }
}

/// A signal: hand the unit to the oldest waiter if there is one, else add
/// it to the counter, which stops at the largest value it can hold.
pub open spec fn signal_step(s: SemState) -> (SemState, SemaphoreResult) {
    if s.queue.len() > 0 {
        (
            SemState { count: s.count, queue: s.queue.subrange(1, s.queue.len() as int) },
            SemaphoreResult::WakeUp(s.queue[0]),
        )
    } else if s.count < u64::MAX {
        (SemState { count: (s.count + 1) as u64, queue: s.queue }, SemaphoreResult::Done)
    } else {
        (s, SemaphoreResult::Done)
    }
}

/// A counted semaphore with its waiters in order of arrival.
pub struct Semaphore {
    pub count: u64,
    pub wait_queue: VecDeque<ProcessId>,
}

impl View for Semaphore {
    type V = SemState;

    open spec fn view(&self) -> SemState {
        SemState { count: self.count, queue: self.wait_queue@ }
    }
}

impl Semaphore {
    /// A semaphore with `value` units and nobody waiting.
    pub fn new(value: u64) -> (s: Self)
        ensures
            s@ == (SemState { count: value, queue: Seq::empty() }),
    {
        Semaphore { count: value, wait_queue: VecDeque::new() }
    }

    /// Takes a unit for `pid`, or files `pid` behind the other waiters.
    pub fn wait(&mut self, pid: ProcessId) -> (r: SemaphoreResult)
        ensures
            (final(self)@, r) == wait_step(old(self)@, pid),
    {
        if self.count > 0 {
            self.count = self.count - 1;
            SemaphoreResult::Done
        } else {
            self.wait_queue.push_back(pid);
            SemaphoreResult::Block(pid)
        }
    }

    /// Gives a unit back: to the oldest waiter, if any, else to the counter.
    pub fn signal(&mut self) -> (r: SemaphoreResult)
        ensures
            (final(self)@, r) == signal_step(old(self)@),
    {
        match self.wait_queue.pop_front() {
            Some(pid) => SemaphoreResult::WakeUp(pid),
            None => {
                if self.count < u64::MAX {
                    self.count = self.count + 1;
                }
                SemaphoreResult::Done
            },
        }
    }
}

/// The semaphores of one family of processes, by key.
pub struct SemaphoreSet {
    pub sems: Table<Semaphore>,
}

impl View for SemaphoreSet {
    type V = Map<u32, SemState>;

    open spec fn view(&self) -> Map<u32, SemState> {
        Map::new(
            |k: u32| self.sems.map().contains_key(k as u64),
            |k: u32| self.sems.map()[k as u64]@,
        )
    }
}

/// Whether `pid` stands among the waiters of some semaphore of `m`.
pub open spec fn queued(m: Map<u32, SemState>, pid: ProcessId) -> bool {
    exists|key: u32| #[trigger] m.contains_key(key) && m[key].queue.contains(pid)
}

/// Who stands among the waiters of `a` under keys that `b` keeps with
/// those waiters, stands among the waiters of `b`.
pub proof fn lemma_still_queued(a: Map<u32, SemState>, b: Map<u32, SemState>, pid: ProcessId)
    requires
        queued(a, pid),
        forall|key: u32| #[trigger]
            a.contains_key(key) && a[key].queue.contains(pid) ==> b.contains_key(key) && b[key].queue.contains(pid),
    ensures
        queued(b, pid),
{
    let key = choose|key: u32| #[trigger] a.contains_key(key) && a[key].queue.contains(pid);
    assert(b.contains_key(key) && b[key].queue.contains(pid));
}

/// Every state of `m` with `pid` taken out of its waiters.
pub open spec fn scrubbed(m: Map<u32, SemState>, pid: ProcessId) -> Map<u32, SemState> {
    Map::new(
        |k: u32| m.contains_key(k),
        |k: u32| SemState { count: m[k].count, queue: without(m[k].queue, pid) },
    )
}

impl SemaphoreSet {
    /// No key twice, and every key is a 32-bit value.
    pub open spec fn wf(&self) -> bool {
        &&& self.sems.wf()
        &&& forall|i: int| 0 <= i < self.sems.entries@.len() ==> (#[trigger] self.sems.entries@[i]).key <= u32::MAX
    }

    /// A set without semaphores.
    pub fn new() -> (s: Self)
        ensures
            s.wf(),
            s@ == Map::<u32, SemState>::empty(),
    {
        let s = SemaphoreSet { sems: Table::new() };
        assert(s@ =~= Map::<u32, SemState>::empty());
        s
    }

    /// Whether the set has a semaphore under `key`.
    pub fn contains(&self, key: u32) -> (b: bool)
        requires
            self.wf(),
        ensures
            b == self@.contains_key(key),
    {
        self.sems.contains(key as u64)
    }

    /// The units that the semaphore under `key` has left, if there is one.
    pub fn count(&self, key: u32) -> (r: Option<u64>)
        requires
            self.wf(),
        ensures
            r == if self@.contains_key(key) {
                Some(self@[key].count)
            } else {
                None
            },
    {
        match self.sems.find(key as u64) {
            Some(i) => Some(self.sems.entries[i].value.count),
            None => None,
        }
    }

    /// Adds a semaphore with `value` units under `key` unless the key is
    /// taken, and says whether it was added.
    pub fn insert(&mut self, key: u32, value: u64) -> (added: bool)
        requires
            old(self).wf(),
        ensures
            final(self).wf(),
            added == !old(self)@.contains_key(key),
            added ==> final(self)@ == old(self)@.insert(key, SemState { count: value, queue: Seq::empty() }),
            !added ==> final(self)@ == old(self)@,
    {
        if self.sems.contains(key as u64) {
            return false;
        }
        let sem = Semaphore::new(value);
        self.sems.insert_new(key as u64, sem);
        assert(final(self)@ =~= old(self)@.insert(key, SemState { count: value, queue: Seq::empty() }));
        true
    }

    /// Drops the semaphore under `key` with its waiters, who are not woken,
    /// and says whether there was one.
    pub fn remove(&mut self, key: u32) -> (removed: bool)
        requires
            old(self).wf(),
        ensures
            final(self).wf(),
            removed == old(self)@.contains_key(key),
            final(self)@ == old(self)@.remove(key),
    {
        match self.sems.find(key as u64) {
            Some(i) => {
                let _ = self.sems.remove_at(i);
                assert(final(self)@ =~= old(self)@.remove(key));
                true
            },
            None => {
                assert(final(self)@ =~= old(self)@.remove(key));
                false
            },
        }
    }

    /// A wait by `pid` on the semaphore under `key`.
    pub fn wait(&mut self, key: u32, pid: ProcessId) -> (r: SemaphoreResult)
        requires
            old(self).wf(),
        ensures
            final(self).wf(),
            !old(self)@.contains_key(key) ==> r == SemaphoreResult::NotExist && final(self)@ == old(self)@,
            old(self)@.contains_key(key) ==> r == wait_step(old(self)@[key], pid).1 && final(self)@
                == old(self)@.insert(key, wait_step(old(self)@[key], pid).0),
    {
        match self.sems.find(key as u64) {
            Some(i) => {
                let sem = &mut self.sems.entries[i].value;
                let r = sem.wait(pid);
                proof {
                    lemma_update(old(self).sems.entries@, self.sems.entries@, i as int);
                    assert(final(self)@ =~= old(self)@.insert(key, wait_step(old(self)@[key], pid).0));
                }
                r
            },
            None => SemaphoreResult::NotExist,
        }
    }

    /// A signal on the semaphore under `key`.
    pub fn signal(&mut self, key: u32) -> (r: SemaphoreResult)
        requires
            old(self).wf(),
        ensures
            final(self).wf(),
            !old(self)@.contains_key(key) ==> r == SemaphoreResult::NotExist && final(self)@ == old(self)@,
            old(self)@.contains_key(key) ==> r == signal_step(old(self)@[key]).1 && final(self)@
                == old(self)@.insert(key, signal_step(old(self)@[key]).0),
    {
        match self.sems.find(key as u64) {
            Some(i) => {
                let sem = &mut self.sems.entries[i].value;
                let r = sem.signal();
                proof {
                    lemma_update(old(self).sems.entries@, self.sems.entries@, i as int);
                    assert(final(self)@ =~= old(self)@.insert(key, signal_step(old(self)@[key]).0));
                }
                r
            },
            None => SemaphoreResult::NotExist,
        }
    }

    /// Takes `pid` out of the waiters of every semaphore.
    pub fn scrub(&mut self, pid: ProcessId)
        requires
            old(self).wf(),
        ensures
            final(self).wf(),
            final(self)@ == scrubbed(old(self)@, pid),
    {
        let mut i: usize = 0;
        while i < self.sems.entries.len()
            invariant
                i <= self.sems.entries@.len(),
                self.sems.entries@.len() == old(self).sems.entries@.len(),
                self.wf(),
                old(self).wf(),
                forall|j: int| 0 <= j < self.sems.entries@.len() ==> (#[trigger] self.sems.entries@[j]).key == old(self).sems.entries@[j].key,
                forall|j: int| 0 <= j < i ==> (#[trigger] self.sems.entries@[j]).value@ == (SemState {
                    count: old(self).sems.entries@[j].value.count,
                    queue: without(old(self).sems.entries@[j].value.wait_queue@, pid),
                }),
                forall|j: int| i <= j < self.sems.entries@.len() ==> (#[trigger] self.sems.entries@[j]).value@ == old(self).sems.entries@[j].value@,
            decreases self.sems.entries@.len() - i,
        {
            let ghost before = self.sems.entries@;
            let sem = &mut self.sems.entries[i].value;
            remove_pid(&mut sem.wait_queue, pid);
            proof {
                lemma_update(before, self.sems.entries@, i as int);
            }
            i += 1;
        }
        proof {
            let a = self.sems.entries@;
            let b = old(self).sems.entries@;
            assert forall|k: u32| self@.contains_key(k) <==> old(self)@.contains_key(k) by {
                if self.sems.map().contains_key(k as u64) {
                    crate::table::lemma_key_row(a, k as u64);
                    let j = crate::table::slot_of(a, k as u64);
                    assert(b[j].key == k as u64);
                    lemma_row(b, j);
                }
                if old(self).sems.map().contains_key(k as u64) {
                    crate::table::lemma_key_row(b, k as u64);
                    let j = crate::table::slot_of(b, k as u64);
                    assert(a[j].key == k as u64);
                    lemma_row(a, j);
                }
            }
            assert forall|k: u32| self@.contains_key(k)
            implies #[trigger] self@[k] == scrubbed(old(self)@, pid)[k] by {
                crate::table::lemma_key_row(a, k as u64);
                let j = crate::table::slot_of(a, k as u64);
                assert(b[j].key == k as u64);
                lemma_row(b, j);
                lemma_row(a, j);
            }
            assert(self@ =~= scrubbed(old(self)@, pid));
        }
    }
}

/// One step of a history of a single semaphore.
pub enum SemOp {
    /// The process named waits.
    Wait(ProcessId),
    /// Somebody signals.
    Signal,
}

/// The step that `op` takes from `s`, with what it asks of the scheduler.
pub open spec fn sem_step(s: SemState, op: SemOp) -> (SemState, SemaphoreResult) {
    match op {
        SemOp::Wait(pid) => wait_step(s, pid),
        SemOp::Signal => signal_step(s),
    }
}

/// The state after the history `ops`, begun in `s`.
pub open spec fn sem_run(s: SemState, ops: Seq<SemOp>) -> SemState
    decreases ops.len(),
{
    if ops.len() == 0 {
        s
    } else {
        sem_step(sem_run(s, ops.drop_last()), ops.last()).0
    }
}

/// The processes that the history made wait, in the order in which they
/// arrived.
pub open spec fn sem_arrivals(s: SemState, ops: Seq<SemOp>) -> Seq<ProcessId>
    decreases ops.len(),
{
    if ops.len() == 0 {
        Seq::empty()
    } else {
        let before = sem_arrivals(s, ops.drop_last());
        match sem_step(sem_run(s, ops.drop_last()), ops.last()).1 {
            SemaphoreResult::Block(pid) => before.push(pid),
            _ => before,
        }
    }
}

/// The processes that the history woke, in the order in which they were
/// woken.
pub open spec fn sem_wakeups(s: SemState, ops: Seq<SemOp>) -> Seq<ProcessId>
    decreases ops.len(),
{
    if ops.len() == 0 {
        Seq::empty()
    } else {
        let before = sem_wakeups(s, ops.drop_last());
        match sem_step(sem_run(s, ops.drop_last()), ops.last()).1 {
            SemaphoreResult::WakeUp(pid) => before.push(pid),
            _ => before,
        }
    }
}

/// Waiters are woken first come, first served: over any history of waits
/// and signals, those who waited at the start followed by those who arrived
/// are those who were woken followed by those who still wait.
pub proof fn lemma_semaphore_fifo(s: SemState, ops: Seq<SemOp>)
    ensures
        s.queue + sem_arrivals(s, ops) == sem_wakeups(s, ops) + sem_run(s, ops).queue,
    decreases ops.len(),
{
    if ops.len() == 0 {
        assert(s.queue + Seq::<ProcessId>::empty() =~= Seq::<ProcessId>::empty() + s.queue);
    } else {
        let head = ops.drop_last();
        lemma_semaphore_fifo(s, head);
        let mid = sem_run(s, head);
        let a = sem_arrivals(s, head);
        let w = sem_wakeups(s, head);
        assert(s.queue + a == w + mid.queue);
        match ops.last() {
            SemOp::Wait(pid) => {
                if mid.count > 0 {
                } else {
                    assert(s.queue + a.push(pid) =~= (s.queue + a).push(pid));
                    assert(w + mid.queue.push(pid) =~= (w + mid.queue).push(pid));
                }
            },
            SemOp::Signal => {
                if mid.queue.len() > 0 {
                    let rest = mid.queue.subrange(1, mid.queue.len() as int);
                    assert(w.push(mid.queue[0]) + rest =~= w + mid.queue);
                } else {
                }
            },
        }
    }
}

/// With nobody waiting at the start, the sequence of wake-ups of any
/// history of waits and signals is a prefix of the sequence of arrivals.
pub proof fn lemma_wakeups_prefix_of_arrivals(s: SemState, ops: Seq<SemOp>)
    requires
        s.queue.len() == 0,
    ensures
        sem_wakeups(s, ops).is_prefix_of(sem_arrivals(s, ops)),
{
    lemma_semaphore_fifo(s, ops);
    let a = sem_arrivals(s, ops);
    let w = sem_wakeups(s, ops);
    let q = sem_run(s, ops).queue;
    assert(s.queue + a =~= a);
    assert(a == w + q);
    assert(w =~= a.subrange(0, w.len() as int));
}

/// How many units the history has handed out: one for each wait that
/// found a unit, and one for each waiter that a signal woke.
pub open spec fn sem_grants(s: SemState, ops: Seq<SemOp>) -> nat
    decreases ops.len(),
{
    if ops.len() == 0 {
        0
    } else {
        let before = sem_grants(s, ops.drop_last());
        match sem_step(sem_run(s, ops.drop_last()), ops.last()).1 {
            SemaphoreResult::Done => if ops.last() is Wait {
                before + 1
            } else {
                before
            },
            SemaphoreResult::WakeUp(_) => before + 1,
            _ => before,
        }
    }
}

/// How many signals the history holds.
pub open spec fn sem_signals(ops: Seq<SemOp>) -> nat
    decreases ops.len(),
{
    if ops.len() == 0 {
        0
    } else if ops.last() is Signal {
        sem_signals(ops.drop_last()) + 1
    } else {
        sem_signals(ops.drop_last())
    }
}

/// Whether every signal of the history gives back a unit that was handed
/// out before and not given back yet.
pub open spec fn only_holders_signal(s: SemState, ops: Seq<SemOp>) -> bool
    decreases ops.len(),
{
    ops.len() == 0 || (only_holders_signal(s, ops.drop_last()) && (ops.last() is Signal ==> sem_signals(
        ops.drop_last(),
    ) < sem_grants(s, ops.drop_last())))
}

/// Units are neither made nor lost: while only those signal who hold a
/// unit, the units that are held and the units that the counter has left
/// are together the units that the semaphore began with.
pub proof fn lemma_units_are_conserved(s: SemState, ops: Seq<SemOp>)
    requires
        only_holders_signal(s, ops),
    ensures
        sem_signals(ops) <= sem_grants(s, ops),
        sem_grants(s, ops) - sem_signals(ops) + sem_run(s, ops).count == s.count,
    decreases ops.len(),
{
    if ops.len() > 0 {
        lemma_units_are_conserved(s, ops.drop_last());
    }
}

/// A semaphore that begins with one unit lets one process in at a time:
/// while only those signal who hold the unit, at most one process stands
/// between a wait that was granted and its signal.
pub proof fn lemma_one_unit_one_holder(s: SemState, ops: Seq<SemOp>)
    requires
        s.count == 1,
        only_holders_signal(s, ops),
    ensures
        sem_grants(s, ops) - sem_signals(ops) <= 1,
{
    lemma_units_are_conserved(s, ops);
}

} // verus!
