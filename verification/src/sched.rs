use vstd::prelude::*;

use crate::pid::ProcessId;
use crate::proc::rotated;
use crate::queue::no_duplicates;

verus! {

/// The schedule `s` after `ticks` timer ticks, each of which sends the
/// process at the head to the end.
pub open spec fn schedule_after(s: Seq<ProcessId>, ticks: nat) -> Seq<ProcessId>
    decreases ticks,
{
    if ticks == 0 {
        s
    } else {
        rotated(schedule_after(s, (ticks - 1) as nat))
    }
}

/// How often `pid` is given the processor by the first `ticks` timer
/// ticks after the schedule `s`.
pub open spec fn runs(s: Seq<ProcessId>, pid: ProcessId, ticks: nat) -> nat
    decreases ticks,
{
    if ticks == 0 {
        0
    } else {
        runs(s, pid, (ticks - 1) as nat) + if schedule_after(s, ticks).len() > 0 && schedule_after(
            s,
            ticks,
        )[0] == pid {
            1nat
        } else {
            0nat
        }
    }
}

/// Ticks add up: what `a + b` ticks do is what `b` ticks do after what `a`
/// ticks have done.
pub proof fn lemma_ticks_add(s: Seq<ProcessId>, pid: ProcessId, a: nat, b: nat)
    ensures
        schedule_after(s, a + b) == schedule_after(schedule_after(s, a), b),
        runs(s, pid, a + b) == runs(s, pid, a) + runs(schedule_after(s, a), pid, b),
    decreases b,
{
    if b > 0 {
        lemma_ticks_add(s, pid, a, (b - 1) as nat);
        assert((a + b - 1) as nat == a + (b - 1) as nat);
    }
}

/// Within one round the schedule is the old one turned by the number of
/// ticks, and a process has run once exactly if its turn has come.
pub proof fn lemma_part_of_round(s: Seq<ProcessId>, pid: ProcessId, at: int, ticks: nat)
    requires
        no_duplicates(s),
        0 <= at < s.len(),
        s[at] == pid,
        ticks <= s.len(),
    ensures
        schedule_after(s, ticks) == s.subrange(ticks as int, s.len() as int) + s.subrange(
            0,
            ticks as int,
        ),
        runs(s, pid, ticks) == if 1 <= at <= ticks || (at == 0 && ticks == s.len()) {
            1nat
        } else {
            0nat
        },
    decreases ticks,
{
    let n = s.len() as int;
    if ticks == 0 {
        assert(s.subrange(0, n) + s.subrange(0, 0) =~= s);
    } else {
        let t = (ticks - 1) as nat;
        lemma_part_of_round(s, pid, at, t);
        let before = schedule_after(s, t);
        let after = schedule_after(s, ticks);
        assert(before == s.subrange(t as int, n) + s.subrange(0, t as int));
        assert(before.len() == n);
        assert(before[0] == s[t as int]);
        assert(after =~= s.subrange(ticks as int, n) + s.subrange(0, ticks as int));
        if ticks < n {
            assert(after[0] == s[ticks as int]);
        } else {
            assert(after[0] == s[0]);
        }
    }
}

/// Round-robin is fair: while the same processes take turns, each of them
/// is given the processor exactly `rounds` times by as many timer ticks as
/// `rounds` rounds take, whichever of them runs at the start; and after
/// those ticks the schedule is as it was.
pub proof fn lemma_round_robin_fair(s: Seq<ProcessId>, pid: ProcessId, rounds: nat)
    requires
        no_duplicates(s),
        s.contains(pid),
    ensures
        schedule_after(s, rounds * s.len()) == s,
        runs(s, pid, rounds * s.len()) == rounds,
        runs(s, pid, rounds * s.len()) >= rounds - 1,
    decreases rounds,
{
    let n = s.len();
    let at = choose|i: int| 0 <= i < s.len() && s[i] == pid;
    if rounds == 0 {
        assert(rounds * n == 0) by (nonlinear_arith)
            requires
                rounds == 0,
        ;
    } else {
        let rest = (rounds - 1) as nat;
        lemma_round_robin_fair(s, pid, rest);
        assert(rounds * n == rest * n + n) by (nonlinear_arith)
            requires
                rest == rounds - 1,
        ;
        lemma_ticks_add(s, pid, rest * n, n);
        lemma_part_of_round(s, pid, at, n);
        assert(s.subrange(n as int, n as int) + s.subrange(0, n as int) =~= s);
    }
}

} // verus!
