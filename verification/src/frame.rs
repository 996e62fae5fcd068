use vstd::prelude::*;

verus! {

/// No value stands twice in `s`.
pub open spec fn distinct(s: Seq<u64>) -> bool {
    forall|i: int, j: int| 0 <= i < s.len() && 0 <= j < s.len() && i != j ==> s[i] != s[j]
}

/// Hands out physical frames by number. Frames `0 .. limit` exist; those
/// below `next` were handed out at least once, and `recycled` lists the ones
/// that came back.
pub struct FrameAllocator {
    pub limit: u64,
    pub next: u64,
    pub recycled: Vec<u64>,
}

impl FrameAllocator {
    /// The counters are in order and every recycled frame came back once.
    pub open spec fn wf(&self) -> bool {
        &&& self.next <= self.limit
        &&& distinct(self.recycled@)
        &&& forall|i: int| 0 <= i < self.recycled@.len() ==> self.recycled@[i] < self.next
    }

    /// The frames that are handed out and not yet given back.
    pub open spec fn allocated(&self) -> Set<u64> {
        Set::new(|f: u64| f < self.next && !self.recycled@.contains(f))
    }

    /// How many frames can still be handed out.
    pub open spec fn available(&self) -> nat {
        ((self.limit - self.next) + self.recycled@.len()) as nat
    }

    /// An allocator over the frames `0 .. limit`, none handed out.
    pub fn new(limit: u64) -> (a: Self)
        ensures
            a.wf(),
            a.allocated() == Set::<u64>::empty(),
            a.available() == limit,
    {
        let a = FrameAllocator { limit, next: 0, recycled: Vec::new() };
        assert(a.allocated() =~= Set::<u64>::empty());
        a
    }

    /// Whether `n` more frames can be handed out.
    pub fn has_available(&self, n: u64) -> (b: bool)
        requires
            self.wf(),
        ensures
            b == (self.available() >= n),
    {
        let fresh: u64 = self.limit - self.next;
        if fresh >= n {
            true
        } else {
            let need: u64 = n - fresh;
            let have: usize = self.recycled.len();
            have as u64 >= need
        }
    }

    /// Whether frame `f` is handed out at present.
    pub fn is_allocated(&self, f: u64) -> (b: bool)
        requires
            self.wf(),
        ensures
            b == self.allocated().contains(f),
    {
        if f >= self.next {
            return false;
        }
        let mut i: usize = 0;
        while i < self.recycled.len()
            invariant
                i <= self.recycled@.len(),
                forall|j: int| 0 <= j < i ==> self.recycled@[j] != f,
            decreases self.recycled@.len() - i,
        {
            if self.recycled[i] == f {
                return false;
            }
            i += 1;
        }
        true
    }

    /// Hands out a frame that is not in use: the one given back last, or
    /// else the lowest that was never handed out. `None` when all are in use.
    pub fn allocate(&mut self) -> (r: Option<u64>)
        requires
            old(self).wf(),
        ensures
            final(self).wf(),
            final(self).limit == old(self).limit,
            match r {
                Some(f) => {
                    &&& !old(self).allocated().contains(f)
                    &&& f < old(self).limit
                    &&& final(self).allocated() == old(self).allocated().insert(f)
                    &&& final(self).available() == old(self).available() - 1
                    &&& f == if old(self).recycled@.len() > 0 {
                        old(self).recycled@.last()
                    } else {
                        old(self).next
                    }
                },
                None => old(self).available() == 0 && *final(self) == *old(self),
            },
    {
        if self.recycled.len() > 0 {
            let f = self.recycled.pop().unwrap();
            proof {
                let before = old(self).recycled@;
                let after = self.recycled@;
                assert(before[before.len() - 1] == f);
                assert(before.contains(f));
                assert forall|g: u64| #[trigger] after.contains(g) <==> (before.contains(g) && g != f) by {
                    if after.contains(g) {
                        let i = choose|i: int| 0 <= i < after.len() && after[i] == g;
                        assert(before[i] == g);
                    }
                    if before.contains(g) && g != f {
                        let i = choose|i: int| 0 <= i < before.len() && before[i] == g;
                        assert(after[i] == g);
                    }
                }
                assert(self.allocated() =~= old(self).allocated().insert(f));
            }
            Some(f)
        } else if self.next < self.limit {
            let f = self.next;
            self.next = f + 1;
            proof {
                assert(self.allocated() =~= old(self).allocated().insert(f));
            }
            Some(f)
        } else {
            None
        }
    }

    /// Takes frame `f` back if it is handed out, and says whether it was.
    pub fn deallocate(&mut self, f: u64) -> (b: bool)
        requires
            old(self).wf(),
        ensures
            final(self).wf(),
            final(self).limit == old(self).limit,
            b == old(self).allocated().contains(f),
            b ==> final(self).allocated() == old(self).allocated().remove(f)
                && final(self).available() == old(self).available() + 1,
            !b ==> *final(self) == *old(self),
    {
        if !self.is_allocated(f) {
            return false;
        }
        self.recycled.push(f);
        proof {
            let before = old(self).recycled@;
            let after = self.recycled@;
            assert(after[before.len() as int] == f);
            assert forall|g: u64| #[trigger] after.contains(g) <==> (before.contains(g) || g == f) by {
                if after.contains(g) {
                    let i = choose|i: int| 0 <= i < after.len() && after[i] == g;
                    if i < before.len() {
                        assert(before[i] == g);
                    }
                }
                if before.contains(g) {
                    let i = choose|i: int| 0 <= i < before.len() && before[i] == g;
                    assert(after[i] == g);
                }
            }
            assert(self.allocated() =~= old(self).allocated().remove(f));
        }
        true
    }
}

} // verus!
