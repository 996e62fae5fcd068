use vstd::prelude::*;

use crate::frame::FrameAllocator;
use crate::table::{lemma_row, Entry, Table};

verus! {

/// Where a user page lives and whether the program may write to it.
#[derive(Clone, Copy, Debug, PartialEq, Eq, Structural)]
pub struct PageEntry {
    pub frame: u64,
    pub writable: bool,
}

/// No frame backs two rows.
pub open spec fn frames_injective(s: Seq<Entry<PageEntry>>) -> bool {
    forall|i: int, j: int|
        0 <= i < s.len() && 0 <= j < s.len() && i != j ==> (#[trigger] s[i]).value.frame != (#[trigger] s[j]).value.frame
}

/// The frames that back the rows of `s`.
pub open spec fn frames_of(s: Seq<Entry<PageEntry>>) -> Set<u64> {
    Set::new(|f: u64| exists|i: int| 0 <= i < s.len() && (#[trigger] s[i]).value.frame == f)
}

/// The user half of an address space: which pages are mapped, and to which
/// frames. Pages and frames are numbers, not addresses.
pub struct PageTableContext {
    pub table: Table<PageEntry>,
}

impl PageTableContext {
    /// No page is mapped twice and no frame backs two pages.
    pub open spec fn wf(&self) -> bool {
        &&& self.table.wf()
        &&& frames_injective(self.table.entries@)
    }

    /// The mapping, from page to entry.
    pub open spec fn map(&self) -> Map<u64, PageEntry> {
        self.table.map()
    }

    /// The frames that the mapping uses.
    pub open spec fn frames(&self) -> Set<u64> {
        frames_of(self.table.entries@)
    }

    /// Every frame of the mapping belongs to a mapped page.
    pub proof fn lemma_frames(&self)
        requires
            self.wf(),
        ensures
            forall|p: u64| #[trigger] self.map().contains_key(p) ==> self.frames().contains(self.map()[p].frame),
            forall|f: u64| #[trigger]
                self.frames().contains(f) ==> exists|p: u64| #[trigger]
                    self.map().contains_key(p) && self.map()[p].frame == f,
            forall|p: u64, q: u64|
                self.map().contains_key(p) && self.map().contains_key(q) && p != q ==> (#[trigger] self.map()[p]).frame != (#[trigger] self.map()[q]).frame,
    {
        let s = self.table.entries@;
        assert forall|p: u64| #[trigger] self.map().contains_key(p)
        implies self.frames().contains(self.map()[p].frame) by {
            crate::table::lemma_key_row(s, p);
            let i = crate::table::slot_of(s, p);
            assert(s[i].value.frame == self.map()[p].frame);
        }
        assert forall|f: u64| #[trigger] self.frames().contains(f) implies exists|p: u64| #[trigger]
            self.map().contains_key(p) && self.map()[p].frame == f by {
            let i = choose|i: int| 0 <= i < s.len() && (#[trigger] s[i]).value.frame == f;
            lemma_row(s, i);
            assert(self.map().contains_key(s[i].key) && self.map()[s[i].key].frame == f);
        }
        assert forall|p: u64, q: u64|
            self.map().contains_key(p) && self.map().contains_key(q) && p != q implies (#[trigger] self.map()[p]).frame != (#[trigger] self.map()[q]).frame by {
            crate::table::lemma_key_row(s, p);
            crate::table::lemma_key_row(s, q);
            let i = crate::table::slot_of(s, p);
            let j = crate::table::slot_of(s, q);
            assert(s[i].value.frame != s[j].value.frame);
        }
    }

    /// An address space with no user page mapped.
    pub fn new() -> (t: Self)
        ensures
            t.wf(),
            t.map() == Map::<u64, PageEntry>::empty(),
            t.frames() == Set::<u64>::empty(),
            t.table.entries@.len() == 0,
    {
        let t = PageTableContext { table: Table::new() };
        assert(t.frames() =~= Set::<u64>::empty());
        t
    }

    /// The entry of `page`, if it is mapped.
    pub fn translate(&self, page: u64) -> (r: Option<PageEntry>)
        requires
            self.wf(),
        ensures
            r == if self.map().contains_key(page) {
                Some(self.map()[page])
            } else {
                None
            },
    {
        match self.table.find(page) {
            Some(i) => Some(self.table.entries[i].value),
            None => None,
        }
    }

    /// Maps `page` to a frame that nobody uses, if one is left, and says
    /// whether it did.
    pub fn map_fresh(&mut self, page: u64, writable: bool, alloc: &mut FrameAllocator) -> (done: bool)
        requires
            old(self).wf(),
            old(alloc).wf(),
            !old(self).map().contains_key(page),
            old(self).frames().subset_of(old(alloc).allocated()),
        ensures
            final(self).wf(),
            final(alloc).wf(),
            final(alloc).limit == old(alloc).limit,
            done == (old(alloc).available() > 0),
            !done ==> *final(self) == *old(self) && *final(alloc) == *old(alloc),
            done ==> {
                let e = final(self).map()[page];
                &&& final(self).map() == old(self).map().insert(page, e)
                &&& e.writable == writable
                &&& !old(alloc).allocated().contains(e.frame)
                &&& final(alloc).allocated() == old(alloc).allocated().insert(e.frame)
                &&& final(alloc).available() == old(alloc).available() - 1
                &&& final(self).frames() == old(self).frames().insert(e.frame)
                &&& final(self).table.entries@ == old(self).table.entries@.push(
                    Entry { key: page, value: e },
                )
            },
    {
        match alloc.allocate() {
            None => false,
            Some(frame) => {
                let e = PageEntry { frame, writable };
                self.table.insert_new(page, e);
                proof {
                    let s = old(self).table.entries@;
                    let t = self.table.entries@;
                    assert forall|i: int, j: int| 0 <= i < t.len() && 0 <= j < t.len() && i != j
                    implies (#[trigger] t[i]).value.frame != (#[trigger] t[j]).value.frame by {
                        if i < s.len() {
                            assert(t[i] == s[i]);
                            assert(frames_of(s).contains(s[i].value.frame));
                        }
                        if j < s.len() {
                            assert(t[j] == s[j]);
                            assert(frames_of(s).contains(s[j].value.frame));
                        }
                    }
                    assert forall|f: u64| frames_of(t).contains(f) <==> (frames_of(s).contains(f) || f == frame) by {
                        if frames_of(t).contains(f) {
                            let i = choose|i: int| 0 <= i < t.len() && (#[trigger] t[i]).value.frame == f;
                            if i < s.len() {
                                assert(s[i] == t[i]);
                            }
                        }
                        if frames_of(s).contains(f) {
                            let i = choose|i: int| 0 <= i < s.len() && (#[trigger] s[i]).value.frame == f;
                            assert(t[i] == s[i]);
                        }
                        if f == frame {
                            assert(t[s.len() as int].value.frame == f);
                        }
                    }
                    assert(self.frames() =~= old(self).frames().insert(frame));
                    assert(self.map()[page] == e);
                }
                true
            },
        }
    }

    /// Unmaps `page` and gives its frame back, if it is mapped, and says
    /// whether it was.
    pub fn unmap(&mut self, page: u64, alloc: &mut FrameAllocator) -> (done: bool)
        requires
            old(self).wf(),
            old(alloc).wf(),
        ensures
            final(self).wf(),
            final(alloc).wf(),
            final(alloc).limit == old(alloc).limit,
            done == old(self).map().contains_key(page),
            final(self).map() == old(self).map().remove(page),
            !done ==> *final(self) == *old(self) && *final(alloc) == *old(alloc),
            done ==> {
                let f = old(self).map()[page].frame;
                &&& final(self).frames() == old(self).frames().remove(f)
                &&& final(alloc).allocated() == old(alloc).allocated().remove(f)
            },
    {
        match self.table.find(page) {
            None => {
                assert(self.map() =~= old(self).map().remove(page));
                false
            },
            Some(i) => {
                let e = self.table.remove_at(i);
                let _ = alloc.deallocate(e.frame);
                proof {
                    let s = old(self).table.entries@;
                    let t = self.table.entries@;
                    lemma_removed_rows(s, i as int);
                }
                true
            },
        }
    }
}

/// How the frames in use change when one address space goes from the
/// frames `before` to the frames `after`: what it dropped is free again,
/// and what it gained was free.
pub open spec fn frames_exchanged(
    before: Set<u64>,
    after: Set<u64>,
    alloc_before: Set<u64>,
    alloc_after: Set<u64>,
) -> bool {
    &&& alloc_after == alloc_before.difference(before).union(after)
    &&& after.difference(before).disjoint(alloc_before)
}

impl PageTableContext {
    /// Row for row the same pages with the same rights, each on a frame
    /// of its own that was free in `alloc_before`.
    pub open spec fn is_copy_of(&self, parent: &PageTableContext, alloc_before: Set<u64>) -> bool {
        &&& self.wf()
        &&& self.table.entries@.len() == parent.table.entries@.len()
        &&& forall|i: int|
            #![trigger self.table.entries@[i]]
            0 <= i < self.table.entries@.len() ==> {
                &&& self.table.entries@[i].key == parent.table.entries@[i].key
                &&& self.table.entries@[i].value.writable == parent.table.entries@[i].value.writable
                &&& !alloc_before.contains(self.table.entries@[i].value.frame)
            }
    }

    /// A copy has the pages of its parent, with the same rights, on frames
    /// that were free before.
    pub proof fn lemma_copy(&self, parent: &PageTableContext, alloc_before: Set<u64>)
        requires
            parent.wf(),
            self.is_copy_of(parent, alloc_before),
        ensures
            self.map().dom() == parent.map().dom(),
            forall|p: u64| #[trigger]
                self.map().contains_key(p) ==> self.map()[p].writable == parent.map()[p].writable
                    && !alloc_before.contains(self.map()[p].frame),
            self.frames().disjoint(alloc_before),
    {
        let a = self.table.entries@;
        let b = parent.table.entries@;
        assert forall|p: u64| self.map().contains_key(p) <==> parent.map().contains_key(p) by {
            if self.map().contains_key(p) {
                crate::table::lemma_key_row(a, p);
                let i = crate::table::slot_of(a, p);
                assert(a[i].key == b[i].key);
                lemma_row(b, i);
            }
            if parent.map().contains_key(p) {
                crate::table::lemma_key_row(b, p);
                let i = crate::table::slot_of(b, p);
                assert(a[i].key == b[i].key);
                lemma_row(a, i);
            }
        }
        assert(self.map().dom() =~= parent.map().dom());
        assert forall|p: u64| #[trigger] self.map().contains_key(p) implies self.map()[p].writable
            == parent.map()[p].writable && !alloc_before.contains(self.map()[p].frame) by {
            crate::table::lemma_key_row(a, p);
            let i = crate::table::slot_of(a, p);
            assert(a[i].key == b[i].key);
            lemma_row(b, i);
        }
        assert forall|f: u64| self.frames().contains(f) implies !alloc_before.contains(f) by {
            let i = choose|i: int| 0 <= i < a.len() && (#[trigger] a[i]).value.frame == f;
            assert(!alloc_before.contains(a[i].value.frame));
        }
    }

    /// Builds a copy of this mapping on frames of its own: every page of
    /// this one, with the same rights, on a frame that was free. `None`,
    /// and nothing taken, when fewer frames are free than pages are mapped.
    pub fn fork(&self, alloc: &mut FrameAllocator) -> (r: Option<PageTableContext>)
        requires
            self.wf(),
            old(alloc).wf(),
            self.frames().subset_of(old(alloc).allocated()),
        ensures
            final(alloc).wf(),
            final(alloc).limit == old(alloc).limit,
            r is Some <==> old(alloc).available() >= self.table.entries@.len(),
            r is None ==> *final(alloc) == *old(alloc),
            r matches Some(c) ==> {
                &&& c.is_copy_of(self, old(alloc).allocated())
                &&& final(alloc).allocated() == old(alloc).allocated().union(c.frames())
                &&& final(alloc).available() == old(alloc).available() - self.table.entries@.len()
            },
    {
        let n = self.table.entries.len();
        if !alloc.has_available(n as u64) {
            return None;
        }
        let mut c = PageTableContext::new();
        let mut i: usize = 0;
        while i < n
            invariant
                n == self.table.entries@.len(),
                i <= n,
                self.wf(),
                alloc.wf(),
                alloc.limit == old(alloc).limit,
                c.wf(),
                c.table.entries@.len() == i,
                forall|j: int|
                    #![trigger c.table.entries@[j]]
                    0 <= j < i ==> {
                        &&& c.table.entries@[j].key == self.table.entries@[j].key
                        &&& c.table.entries@[j].value.writable == self.table.entries@[j].value.writable
                        &&& !old(alloc).allocated().contains(c.table.entries@[j].value.frame)
                    },
                alloc.allocated() == old(alloc).allocated().union(c.frames()),
                alloc.available() == old(alloc).available() - i,
                old(alloc).available() >= n,
            decreases n - i,
        {
            let page = self.table.entries[i].key;
            let writable = self.table.entries[i].value.writable;
            proof {
                if c.map().contains_key(page) {
                    crate::table::lemma_key_row(c.table.entries@, page);
                    let j = crate::table::slot_of(c.table.entries@, page);
                    assert(self.table.entries@[j].key == self.table.entries@[i as int].key);
                }
            }
            let ghost c_before = c.table.entries@;
            let ghost alloc_before = alloc.allocated();
            let done = c.map_fresh(page, writable, alloc);
            proof {
                assert(done);
                let e = c.map()[page];
                assert(c.table.entries@ == c_before.push(Entry { key: page, value: e }));
                assert forall|j: int| 0 <= j < i implies c.table.entries@[j] == c_before[j] by {}
                assert(!alloc_before.contains(e.frame));
                assert(alloc.allocated() =~= old(alloc).allocated().union(c.frames()));
            }
            i += 1;
        }
        Some(c)
    }

    /// Unmaps every page and gives every frame back.
    pub fn clear(&mut self, alloc: &mut FrameAllocator)
        requires
            old(self).wf(),
            old(alloc).wf(),
            old(self).frames().subset_of(old(alloc).allocated()),
        ensures
            final(self).wf(),
            final(alloc).wf(),
            final(alloc).limit == old(alloc).limit,
            final(self).table.entries@.len() == 0,
            final(self).map() == Map::<u64, PageEntry>::empty(),
            final(self).frames() == Set::<u64>::empty(),
            final(alloc).allocated() == old(alloc).allocated().difference(old(self).frames()),
            final(alloc).available() == old(alloc).available() + old(self).table.entries@.len(),
    {
        while self.table.entries.len() > 0
            invariant
                self.wf(),
                alloc.wf(),
                alloc.limit == old(alloc).limit,
                self.table.entries@.len() <= old(self).table.entries@.len(),
                self.frames().subset_of(old(self).frames()),
                self.frames().subset_of(alloc.allocated()),
                alloc.allocated() == old(alloc).allocated().difference(
                    old(self).frames().difference(self.frames()),
                ),
                alloc.available() == old(alloc).available() + (old(self).table.entries@.len()
                    - self.table.entries@.len()),
            decreases self.table.entries@.len(),
        {
            let last = self.table.entries.len() - 1;
            let ghost rows = self.table.entries@;
            let ghost before = alloc.allocated();
            let e = self.table.remove_at(last);
            proof {
                lemma_removed_rows(rows, last as int);
                assert(frames_of(rows).contains(rows[last as int].value.frame));
            }
            let b = alloc.deallocate(e.frame);
            proof {
                assert(b);
                assert(alloc.allocated() =~= old(alloc).allocated().difference(
                    old(self).frames().difference(self.frames()),
                ));
            }
        }
        proof {
            assert(self.frames() =~= Set::<u64>::empty());
            crate::table::lemma_no_rows(self.table.entries@);
            assert(alloc.allocated() =~= old(alloc).allocated().difference(old(self).frames()));
        }
    }
}

/// Taking a row out of an injective mapping leaves it injective and takes
/// that row's frame, and no other, out of the frames in use.
pub proof fn lemma_removed_rows(s: Seq<Entry<PageEntry>>, i: int)
    requires
        frames_injective(s),
        0 <= i < s.len(),
    ensures
        frames_injective(s.remove(i)),
        frames_of(s.remove(i)) == frames_of(s).remove(s[i].value.frame),
{
    let t = s.remove(i);
    assert forall|a: int| 0 <= a < t.len() implies #[trigger] t[a] == s[if a < i { a } else { a + 1 }] by {}
    assert forall|a: int, b: int| 0 <= a < t.len() && 0 <= b < t.len() && a != b
    implies (#[trigger] t[a]).value.frame != (#[trigger] t[b]).value.frame by {
        let a2 = if a < i { a } else { a + 1 };
        let b2 = if b < i { b } else { b + 1 };
        assert(t[a] == s[a2]);
        assert(t[b] == s[b2]);
    }
    assert forall|f: u64| frames_of(t).contains(f) <==> (frames_of(s).contains(f) && f != s[i].value.frame) by {
        if frames_of(t).contains(f) {
            let a = choose|a: int| 0 <= a < t.len() && (#[trigger] t[a]).value.frame == f;
            let a2 = if a < i { a } else { a + 1 };
            assert(t[a] == s[a2]);
            assert(s[a2].value.frame == f);
        }
        if frames_of(s).contains(f) && f != s[i].value.frame {
            let a = choose|a: int| 0 <= a < s.len() && (#[trigger] s[a]).value.frame == f;
            let a2 = if a < i { a } else { a - 1 };
            assert(t[a2] == s[a]);
            assert(t[a2].value.frame == f);
        }
    }
    assert(frames_of(t) =~= frames_of(s).remove(s[i].value.frame));
}

} // verus!
