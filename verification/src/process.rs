use vstd::prelude::*;

use crate::context::ProcessContext;
use crate::pid::ProcessId;
use crate::vm::ProcessVm;

verus! {

/// Where a process stands with the scheduler.
#[derive(Debug, Copy, Clone, Eq, PartialEq, Structural)]
pub enum ProgramStatus {
    /// It has the processor.
    Running,
    /// It waits in the ready queue for the processor.
    Ready,
    /// It waits for a semaphore or for the exit of another process.
    Blocked,
    /// It has ended and keeps only its exit code.
    Dead,
}

/// The byte streams that a descriptor can stand for.
#[derive(Debug, Copy, Clone, Eq, PartialEq, Structural)]
pub enum Stream {
    /// Input; it can be read.
    Stdin,
    /// Output; it can be written.
    Stdout,
    /// Output for complaints; it can be written.
    Stderr,
}

/// One variable of a process's environment.
pub struct EnvVar {
    pub key: String,
    pub value: String,
}

/// The value of the first variable of `env` that is named `key`.
pub open spec fn env_lookup(env: Seq<EnvVar>, key: Seq<char>) -> Option<Seq<char>>
    decreases env.len(),
{
    if env.len() == 0 {
        None
    } else if env[0].key@ == key {
        Some(env[0].value@)
    } else {
        env_lookup(env.subrange(1, env.len() as int), key)
    }
}

/// The stream behind the descriptor `fd` of a table of streams.
pub open spec fn stream_at(streams: Seq<Stream>, fd: u8) -> Option<Stream> {
    if fd < streams.len() {
        Some(streams[fd as int])
    } else {
        None
    }
}

/// What a process keeps besides its registers and its memory: its
/// environment, its descriptors and the family of semaphores it shares
/// with the processes it was forked from.
pub struct ProcessData {
    pub env: Vec<EnvVar>,
    pub streams: Vec<Stream>,
    pub sem_set: usize,
}

impl ProcessData {
    /// Data for a fresh process: the given environment, descriptors 0, 1
    /// and 2 for input, output and complaints, and the semaphore family
    /// `sem_set`.
    pub fn new(env: Vec<EnvVar>, sem_set: usize) -> (d: Self)
        ensures
            d.env == env,
            d.sem_set == sem_set,
            d.streams@ == seq![Stream::Stdin, Stream::Stdout, Stream::Stderr],
    {
        let mut streams: Vec<Stream> = Vec::new();
        streams.push(Stream::Stdin);
        streams.push(Stream::Stdout);
        streams.push(Stream::Stderr);
        assert(streams@ =~= seq![Stream::Stdin, Stream::Stdout, Stream::Stderr]);
        ProcessData { env, streams, sem_set }
    }

    /// The value of the variable `key`, if the environment has one.
    pub fn env(&self, key: &str) -> (r: Option<String>)
        ensures
            match r {
                Some(v) => env_lookup(self.env@, key@) == Some(v@),
                None => env_lookup(self.env@, key@) is None,
            },
    {
        let wanted = key.to_owned();
        let mut i: usize = 0;
        proof {
            assert(self.env@.subrange(0, self.env@.len() as int) == self.env@);
        }
        while i < self.env.len()
            invariant
                i <= self.env@.len(),
                wanted@ == key@,
                env_lookup(self.env@, key@) == env_lookup(
                    self.env@.subrange(i as int, self.env@.len() as int),
                    key@,
                ),
            decreases self.env@.len() - i,
        {
            let ghost rest = self.env@.subrange(i as int, self.env@.len() as int);
            proof {
                assert(rest[0] == self.env@[i as int]);
                assert(rest.subrange(1, rest.len() as int) == self.env@.subrange(
                    i + 1,
                    self.env@.len() as int,
                ));
            }
            if self.env[i].key == wanted {
                return Some(self.env[i].value.clone());
            }
            i += 1;
        }
        None
    }

    /// The stream behind the descriptor `fd`, if there is one.
    pub fn stream(&self, fd: u8) -> (r: Option<Stream>)
        ensures
            r == stream_at(self.streams@, fd),
    {
        if (fd as usize) < self.streams.len() {
            Some(self.streams[fd as usize])
        } else {
            None
        }
    }

    /// A copy for a forked child: the same environment and descriptors,
    /// and the same family of semaphores.
    pub fn duplicate(&self) -> (d: Self)
        ensures
            d.env@ == self.env@,
            d.streams@ == self.streams@,
            d.sem_set == self.sem_set,
    {
        let mut env: Vec<EnvVar> = Vec::new();
        let mut i: usize = 0;
        while i < self.env.len()
            invariant
                i <= self.env@.len(),
                env@ == self.env@.take(i as int),
            decreases self.env@.len() - i,
        {
            let e = EnvVar { key: self.env[i].key.clone(), value: self.env[i].value.clone() };
            env.push(e);
            proof {
                assert(self.env@.take(i + 1) == self.env@.take(i as int).push(self.env@[i as int]));
            }
            i += 1;
        }
        let mut streams: Vec<Stream> = Vec::new();
        let mut j: usize = 0;
        while j < self.streams.len()
            invariant
                j <= self.streams@.len(),
                streams@ == self.streams@.take(j as int),
            decreases self.streams@.len() - j,
        {
            streams.push(self.streams[j]);
            proof {
                assert(self.streams@.take(j + 1) == self.streams@.take(j as int).push(
                    self.streams@[j as int],
                ));
            }
            j += 1;
        }
        proof {
            assert(self.env@.take(self.env@.len() as int) == self.env@);
            assert(self.streams@.take(self.streams@.len() as int) == self.streams@);
        }
        ProcessData { env, streams, sem_set: self.sem_set }
    }
}

/// A process: who it is, where it stands with the scheduler, the context
/// it was last seen in, its address space and its bookkeeping.
pub struct Process {
    pub pid: ProcessId,
    pub name: String,
    pub parent: Option<ProcessId>,
    pub status: ProgramStatus,
    pub context: ProcessContext,
    pub exit_code: Option<i64>,
    pub ticks_passed: u64,
    pub waiting_for: Option<ProcessId>,
    /// Set when the semaphore that the process waited on was dropped under
    /// it; cleared when the process is woken or blocked anew.
    pub stranded: bool,
    pub vm: ProcessVm,
    pub data: ProcessData,
}

impl Process {
    /// Whether the process has not ended.
    pub open spec fn alive(&self) -> bool {
        self.status != ProgramStatus::Dead
    }

    /// This process as it is when it gives up the processor with the live
    /// context `ctx`: the context is kept, a running process becomes
    /// ready, and one more tick is counted.
    pub open spec fn saved(self, ctx: ProcessContext) -> Process {
        Process {
            context: ctx,
            status: if self.status == ProgramStatus::Running {
                ProgramStatus::Ready
            } else {
                self.status
            },
            ticks_passed: if self.ticks_passed < u64::MAX {
                (self.ticks_passed + 1) as u64
            } else {
                self.ticks_passed
            },
            ..self
        }
    }

    /// This process as a waker leaves it: ready, waiting for nothing, with
    /// `ret` where it will look for the result of its call.
    pub open spec fn woken(self, ret: u64) -> Process {
        Process {
            status: ProgramStatus::Ready,
            waiting_for: None,
            stranded: false,
            context: self.context.with_rax(ret),
            ..self
        }
    }
}

} // verus!
