use std::collections::VecDeque;
use vstd::prelude::*;

use crate::pid::ProcessId;

verus! {

/// No identifier stands twice in `q`.
pub open spec fn no_duplicates(q: Seq<ProcessId>) -> bool {
    forall|i: int, j: int| 0 <= i < q.len() && 0 <= j < q.len() && i != j ==> q[i] != q[j]
}

/// `q` with every occurrence of `pid` taken out, the others in their order.
pub open spec fn without(q: Seq<ProcessId>, pid: ProcessId) -> Seq<ProcessId>
    decreases q.len(),
{
    if q.len() == 0 {
        Seq::empty()
    } else if q.last() == pid {
        without(q.drop_last(), pid)
    } else {
        without(q.drop_last(), pid).push(q.last())
    }
}

/// What [`without`] keeps: exactly the other members, duplicates no more
/// than before; and a queue that does not hold `pid` stays as it is.
pub proof fn lemma_without(q: Seq<ProcessId>, pid: ProcessId)
    ensures
        !without(q, pid).contains(pid),
        forall|p: ProcessId| p != pid ==> (#[trigger] without(q, pid).contains(p) <==> q.contains(p)),
        no_duplicates(q) ==> no_duplicates(without(q, pid)),
        !q.contains(pid) ==> without(q, pid) == q,
        without(q, pid).len() <= q.len(),
    decreases q.len(),
{
    let w = without(q, pid);
    if q.len() == 0 {
        assert forall|p: ProcessId| !(#[trigger] q.contains(p)) by {}
    } else {
        let d = q.drop_last();
        let wd = without(d, pid);
        lemma_without(d, pid);
        assert(q == d.push(q.last()));
        assert forall|p: ProcessId| #[trigger] q.contains(p) <==> (d.contains(p) || p == q.last()) by {
            if q.contains(p) {
                let i = choose|i: int| 0 <= i < q.len() && q[i] == p;
                if i < d.len() {
                    assert(d[i] == p);
                }
            }
            if d.contains(p) {
                let i = choose|i: int| 0 <= i < d.len() && d[i] == p;
                assert(q[i] == p);
            }
            if p == q.last() {
                assert(q[q.len() - 1] == p);
            }
        }
        if q.last() == pid {
            assert(w == wd);
            if no_duplicates(q) {
                assert forall|i: int, j: int| 0 <= i < d.len() && 0 <= j < d.len() && i != j
                implies d[i] != d[j] by {
                    assert(d[i] == q[i] && d[j] == q[j]);
                }
            }
        } else {
            assert(w == wd.push(q.last()));
            assert forall|p: ProcessId| #[trigger] w.contains(p) <==> (wd.contains(p) || p == q.last()) by {
                if w.contains(p) {
                    let i = choose|i: int| 0 <= i < w.len() && w[i] == p;
                    if i < wd.len() {
                        assert(wd[i] == p);
                    }
                }
                if wd.contains(p) {
                    let i = choose|i: int| 0 <= i < wd.len() && wd[i] == p;
                    assert(w[i] == p);
                }
                if p == q.last() {
                    assert(w[w.len() - 1] == p);
                }
            }
            if no_duplicates(q) {
                assert forall|i: int, j: int| 0 <= i < d.len() && 0 <= j < d.len() && i != j
                implies d[i] != d[j] by {
                    assert(d[i] == q[i] && d[j] == q[j]);
                }
                assert(!d.contains(q.last())) by {
                    if d.contains(q.last()) {
                        let i = choose|i: int| 0 <= i < d.len() && d[i] == q.last();
                        assert(q[i] == q[q.len() - 1]);
                    }
                }
                assert forall|i: int, j: int| 0 <= i < w.len() && 0 <= j < w.len() && i != j
                implies w[i] != w[j] by {
                    if i < wd.len() && j < wd.len() {
                        assert(w[i] == wd[i] && w[j] == wd[j]);
                    } else if i < wd.len() {
                        assert(wd.contains(wd[i]));
                    } else if j < wd.len() {
                        assert(wd.contains(wd[j]));
                    }
                }
            }
            if !q.contains(pid) {
                assert(!d.contains(pid));
            }
        }
    }
}

/// Appending an identifier that the queue does not hold keeps it free of
/// duplicates and adds that member alone.
pub proof fn lemma_push_fresh(q: Seq<ProcessId>, pid: ProcessId)
    ensures
        forall|p: ProcessId| #[trigger] q.push(pid).contains(p) <==> q.contains(p) || p == pid,
        no_duplicates(q) && !q.contains(pid) ==> no_duplicates(q.push(pid)),
{
    let t = q.push(pid);
    assert forall|p: ProcessId| #[trigger] t.contains(p) <==> q.contains(p) || p == pid by {
        if t.contains(p) {
            let i = choose|i: int| 0 <= i < t.len() && t[i] == p;
            if i < q.len() {
                assert(q[i] == p);
            }
        }
        if q.contains(p) {
            let i = choose|i: int| 0 <= i < q.len() && q[i] == p;
            assert(t[i] == p);
        }
        if p == pid {
            assert(t[q.len() as int] == p);
        }
    }
    if no_duplicates(q) && !q.contains(pid) {
        assert forall|i: int, j: int| 0 <= i < t.len() && 0 <= j < t.len() && i != j implies t[i] != t[j] by {
            if i < q.len() {
                assert(q.contains(q[i]));
            }
            if j < q.len() {
                assert(q.contains(q[j]));
            }
        }
    }
}

/// Whether `pid` stands in the queue.
pub fn queue_contains(q: &VecDeque<ProcessId>, pid: ProcessId) -> (b: bool)
    ensures
        b == q@.contains(pid),
{
    let mut i: usize = 0;
    while i < q.len()
        invariant
            i <= q@.len(),
            forall|j: int| 0 <= j < i ==> q@[j] != pid,
        decreases q@.len() - i,
    {
        if q[i].0 == pid.0 {
            return true;
        }
        i += 1;
    }
    false
}

/// Takes every occurrence of `pid` out of the queue and keeps the order of
/// the rest.
pub fn remove_pid(q: &mut VecDeque<ProcessId>, pid: ProcessId)
    ensures
        final(q)@ == without(old(q)@, pid),
{
    let mut kept: VecDeque<ProcessId> = VecDeque::new();
    let mut i: usize = 0;
    while i < q.len()
        invariant
            i <= q@.len(),
            kept@ == without(q@.take(i as int), pid),
        decreases q@.len() - i,
    {
        let p = q[i];
        proof {
            let next = q@.take(i + 1);
            assert(next.drop_last() == q@.take(i as int));
            assert(next.last() == p);
        }
        if p.0 != pid.0 {
            kept.push_back(p);
        }
        i += 1;
    }
    proof {
        assert(q@.take(q@.len() as int) == q@);
    }
    *q = kept;
}

} // verus!
