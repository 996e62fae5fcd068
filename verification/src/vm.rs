use vstd::prelude::*;

use crate::frame::FrameAllocator;
use crate::paging::{frames_exchanged, PageEntry, PageTableContext};

verus! {

/// Bytes in a page.
pub const PAGE_SIZE: u64 = 4096;

/// The page just above the user stack.
pub const STACK_TOP_PAGE: u64 = 0x4_0000_0000;

/// The lowest page of the stack range.
pub const STACK_BOTTOM_PAGE: u64 = 0x3_FFF0_0000;

/// The stack pointer of a program that starts.
pub const STACK_INIT_TOP: u64 = 0x3FFF_FFFF_FFF8;

/// The bit of a page fault's error code that is set when the page was
/// present and the access was refused.
pub const PROTECTION_VIOLATION: u64 = 1;

/// The number of pages that `bytes` bytes take.
pub open spec fn pages_up(bytes: int) -> int {
    bytes / 4096 + if bytes % 4096 == 0 {
        0int
    } else {
        1int
    }
}

/// Whether `page` lies in the range kept for the user stack.
pub open spec fn in_stack(page: u64) -> bool {
    STACK_BOTTOM_PAGE <= page < STACK_TOP_PAGE
}

/// One loadable piece of a program: `size` bytes from the address `start`.
#[derive(Clone, Copy, Debug, PartialEq, Eq, Structural)]
pub struct Segment {
    pub start: u64,
    pub size: u64,
    pub writable: bool,
}

impl Segment {
    /// The page that holds the first byte.
    pub open spec fn first_page(self) -> int {
        self.start as int / 4096
    }

    /// The page behind the last byte.
    pub open spec fn end_page(self) -> int {
        pages_up(self.start + self.size)
    }

    /// Whether the segment reaches into `page`.
    pub open spec fn covers(self, page: int) -> bool {
        self.first_page() <= page < self.end_page()
    }
}

/// Each segment ends, in pages, before the next begins.
pub open spec fn segments_ordered(segs: Seq<Segment>) -> bool {
    forall|i: int, j: int| 0 <= i < j < segs.len() ==> (#[trigger] segs[i]).end_page() <= (#[trigger] segs[j]).first_page()
}

/// The page behind the last segment.
pub open spec fn code_end(segs: Seq<Segment>) -> int {
    if segs.len() == 0 {
        0
    } else {
        segs.last().end_page()
    }
}

/// The pages that the segments take together.
pub open spec fn total_pages(segs: Seq<Segment>) -> int
    decreases segs.len(),
{
    if segs.len() == 0 {
        0
    } else {
        total_pages(segs.drop_last()) + segs.last().end_page() - segs.last().first_page()
    }
}

/// Whether one of the first `n` segments reaches into `page`.
pub open spec fn covered(segs: Seq<Segment>, n: int, page: int) -> bool {
    exists|j: int| 0 <= j < n && j < segs.len() && (#[trigger] segs[j]).covers(page)
}

/// What is known of a program before it is loaded: where it starts to run
/// and which parts of the address space it fills.
pub struct ElfImage {
    pub entry: u64,
    pub segments: Vec<Segment>,
}

impl ElfImage {
    /// The segments are in ascending order without sharing a page, and a
    /// heap of `heap_max` pages fits between them and the stack.
    pub open spec fn valid(&self, heap_max: u64) -> bool {
        &&& segments_ordered(self.segments@)
        &&& code_end(self.segments@) + heap_max <= STACK_BOTTOM_PAGE
    }

    /// Checks the image and measures it: the page behind the code and the
    /// number of pages to map, or `None` for an image that is not valid.
    pub fn measure(&self, heap_max: u64) -> (r: Option<(u64, u64)>)
        ensures
            r is Some <==> self.valid(heap_max),
            r matches Some((end, total)) ==> end == code_end(self.segments@) && total == total_pages(
                self.segments@,
            ),
    {
        if heap_max > STACK_BOTTOM_PAGE {
            proof {
                assert(code_end(self.segments@) >= 0) by {
                    if self.segments@.len() > 0 {
                        assert(self.segments@.last().end_page() >= 0);
                    }
                }
            }
            return None;
        }
        let limit: u64 = STACK_BOTTOM_PAGE - heap_max;
        let mut end: u64 = 0;
        let mut total: u64 = 0;
        let mut i: usize = 0;
        while i < self.segments.len()
            invariant
                i <= self.segments@.len(),
                limit == STACK_BOTTOM_PAGE - heap_max,
                end <= limit,
                total <= end,
                end == code_end(self.segments@.take(i as int)),
                total == total_pages(self.segments@.take(i as int)),
                segments_ordered(self.segments@.take(i as int)),
                forall|j: int| 0 <= j < i ==> (#[trigger] self.segments@[j]).end_page() <= end,
            decreases self.segments@.len() - i,
        {
            let seg = self.segments[i];
            let ghost head = self.segments@.take(i as int);
            let ghost next = self.segments@.take(i + 1);
            proof {
                assert(next.drop_last() == head);
                assert(next.last() == seg);
                assert forall|j: int| 0 <= j < i implies #[trigger] next[j] == self.segments@[j] by {}
            }
            let first = seg.start / PAGE_SIZE;
            let bad = match seg.start.checked_add(seg.size) {
                None => true,
                Some(last) => {
                    let stop = last / PAGE_SIZE + if last % PAGE_SIZE == 0 {
                        0
                    } else {
                        1
                    };
                    first < end || stop > limit
                },
            };
            if bad {
                proof {
                    let segs = self.segments@;
                    if self.valid(heap_max) {
                        assert(segs[i as int].end_page() <= code_end(segs)) by {
                            if i as int != segs.len() - 1 {
                                assert(segs[i as int].end_page() <= segs[segs.len() - 1].first_page());
                                assert(segs[segs.len() - 1].first_page() <= segs[segs.len() - 1].end_page());
                            }
                        }
                        if i > 0 {
                            assert(head.last() == segs[i - 1]);
                            assert(segs[i - 1].end_page() <= segs[i as int].first_page());
                        }
                        assert(false);
                    }
                }
                return None;
            }
            let last = seg.start + seg.size;
            let stop = last / PAGE_SIZE + if last % PAGE_SIZE == 0 {
                0
            } else {
                1
            };
            proof {
                assert(first <= stop);
                assert forall|a: int, b: int| 0 <= a < b < next.len()
                implies (#[trigger] next[a]).end_page() <= (#[trigger] next[b]).first_page() by {
                    if b < i {
                        assert(head[a] == next[a] && head[b] == next[b]);
                    } else {
                        assert(next[a] == self.segments@[a]);
                    }
                }
            }
            total = total + (stop - first);
            end = stop;
            i += 1;
        }
        proof {
            assert(self.segments@.take(i as int) == self.segments@);
        }
        Some((end, total))
    }
}

/// The address space of one process: the user pages that are mapped, and
/// the bounds of the heap, all counted in pages. Code lies below the heap,
/// the heap below the stack range.
pub struct ProcessVm {
    pub page_table: PageTableContext,
    pub heap_base: u64,
    pub heap_end: u64,
    pub heap_max: u64,
}

impl ProcessVm {
    /// The mapping is sound, the heap lies between the code and the stack
    /// range within its limit, every page of the heap is mapped, and
    /// nothing is mapped outside code, heap and stack.
    pub open spec fn wf(&self) -> bool {
        &&& self.page_table.wf()
        &&& self.heap_base <= self.heap_end <= self.heap_base + self.heap_max <= STACK_BOTTOM_PAGE
        &&& forall|p: u64| #[trigger]
            self.mapped(p) ==> p < self.heap_base || self.heap_base <= p < self.heap_end || in_stack(p)
        &&& forall|p: u64| self.heap_base <= p < self.heap_end ==> #[trigger] self.mapped(p)
    }

    /// Whether `page` is mapped.
    pub open spec fn mapped(&self, page: u64) -> bool {
        self.page_table.map().contains_key(page)
    }

    /// The entry of a mapped page.
    pub open spec fn entry(&self, page: u64) -> PageEntry {
        self.page_table.map()[page]
    }

    /// The frames that the address space uses.
    pub open spec fn frames(&self) -> Set<u64> {
        self.page_table.frames()
    }

    /// The address at which the heap ends.
    pub open spec fn heap_end_addr(&self) -> int {
        self.heap_end * 4096
    }

    /// Nothing but the mapping may differ between `self` and `before`.
    pub open spec fn same_layout(&self, before: &ProcessVm) -> bool {
        &&& self.heap_base == before.heap_base
        &&& self.heap_max == before.heap_max
    }

    /// This is the address space of the program `image`, just loaded:
    /// exactly the pages of its segments are mapped, each with the rights
    /// of its segment, and an empty heap of at most `heap_max` pages
    /// begins behind the code.
    pub open spec fn loaded_from(&self, image: &ElfImage, heap_max: u64) -> bool {
        &&& self.wf()
        &&& self.heap_base == code_end(image.segments@)
        &&& self.heap_end == self.heap_base
        &&& self.heap_max == heap_max
        &&& forall|p: u64| #[trigger]
            self.mapped(p) <==> covered(image.segments@, image.segments@.len() as int, p as int)
        &&& forall|j: int, p: u64|
            0 <= j < image.segments@.len() && (#[trigger] image.segments@[j]).covers(p as int)
                ==> (#[trigger] self.entry(p)).writable == image.segments@[j].writable
    }

    /// This is the address space of a child forked from `parent` when the
    /// frames `allocated` were in use: the same pages with the same
    /// rights, each on a frame of its own that was free, and the same heap.
    pub open spec fn forked_from(&self, parent: &ProcessVm, allocated: Set<u64>) -> bool {
        &&& self.wf()
        &&& self.page_table.is_copy_of(&parent.page_table, allocated)
        &&& self.heap_base == parent.heap_base
        &&& self.heap_end == parent.heap_end
        &&& self.heap_max == parent.heap_max
    }

    /// An address space without user pages and without room for a heap.
    pub fn empty() -> (vm: Self)
        ensures
            vm.wf(),
            vm.frames() == Set::<u64>::empty(),
            vm.page_table.map() == Map::<u64, PageEntry>::empty(),
            vm.heap_base == 0 && vm.heap_end == 0 && vm.heap_max == 0,
    {
        ProcessVm { page_table: PageTableContext::new(), heap_base: 0, heap_end: 0, heap_max: 0 }
    }

    /// Answers a page fault at `addr`. A page of the stack range that is
    /// not mapped yet gets a frame and becomes writable; the answer is then
    /// `true`. Any other fault, and a fault when no frame is free, is
    /// answered `false` and changes nothing.
    pub fn handle_page_fault(&mut self, addr: u64, err_code: u64, alloc: &mut FrameAllocator) -> (handled: bool)
        requires
            old(self).wf(),
            old(alloc).wf(),
            old(self).frames().subset_of(old(alloc).allocated()),
        ensures
            final(self).wf(),
            final(alloc).wf(),
            final(alloc).limit == old(alloc).limit,
            final(self).frames().subset_of(final(alloc).allocated()),
            frames_exchanged(
                old(self).frames(),
                final(self).frames(),
                old(alloc).allocated(),
                final(alloc).allocated(),
            ),
            handled == old(self).answers_fault(addr, err_code, old(alloc).available()),
            !handled ==> *final(self) == *old(self) && *final(alloc) == *old(alloc),
            handled ==> old(self).faulted_in(final(self), addr, old(alloc).allocated()),
    {
        let page = addr / PAGE_SIZE;
        if page < STACK_BOTTOM_PAGE || page >= STACK_TOP_PAGE || err_code % 2 != 0 {
            proof {
                assert(old(alloc).allocated().difference(old(self).frames()).union(old(self).frames())
                    =~= old(alloc).allocated());
            }
            return false;
        }
        if self.page_table.translate(page).is_some() {
            proof {
                assert(old(alloc).allocated().difference(old(self).frames()).union(old(self).frames())
                    =~= old(alloc).allocated());
            }
            return false;
        }
        let done = self.page_table.map_fresh(page, true, alloc);
        proof {
            if done {
                let f = self.entry(page).frame;
                assert forall|p: u64| #[trigger] self.mapped(p) implies p < self.heap_base
                    || self.heap_base <= p < self.heap_end || in_stack(p) by {
                    if p != page {
                        assert(old(self).mapped(p));
                    }
                }
                assert forall|p: u64| self.heap_base <= p < self.heap_end
                implies #[trigger] self.mapped(p) by {
                    assert(old(self).mapped(p));
                }
                assert(alloc.allocated() =~= old(alloc).allocated().difference(old(self).frames()).union(
                    self.frames(),
                ));
                assert(self.frames().difference(old(self).frames()).disjoint(old(alloc).allocated()));
            } else {
                assert(old(alloc).allocated().difference(old(self).frames()).union(old(self).frames())
                    =~= old(alloc).allocated());
            }
        }
        done
    }

    /// Whether a request to end the heap at the address `addr` can be met
    /// with `available` free frames: the end, rounded up to a page, lies
    /// between the base of the heap and its limit, and there are frames
    /// for the pages to add.
    pub open spec fn brk_moves(&self, addr: u64, available: nat) -> bool {
        let target = pages_up(addr as int);
        &&& self.heap_base <= target <= self.heap_base + self.heap_max
        &&& target > self.heap_end ==> available >= target - self.heap_end
    }

    /// How `after` comes from `self` when the heap's end moves to the
    /// address `addr`, rounded up to a page, while the frames `allocated`
    /// are in use: the pages between the old end and the new one are added,
    /// writable and on frames that were free, or taken away; every other
    /// page stays as it is.
    pub open spec fn moved_to(&self, after: &ProcessVm, addr: u64, allocated: Set<u64>) -> bool {
        let target = pages_up(addr as int);
        &&& after.heap_end == target
        &&& after.same_layout(self)
        &&& forall|p: u64| #[trigger]
            after.mapped(p) <==> (self.mapped(p) && !(target <= p < self.heap_end)) || (self.heap_end <= p
                < target)
        &&& forall|p: u64| self.mapped(p) && after.mapped(p) ==> #[trigger] after.entry(p) == self.entry(p)
        &&& forall|p: u64|
            self.heap_end <= p < target ==> (#[trigger] after.entry(p)).writable && !allocated.contains(
                after.entry(p).frame,
            )
    }

    /// How `after` comes from `self` when a fault at the address `addr` is
    /// answered while the frames `allocated` are in use: the page of the
    /// address is mapped, writable, on a frame that was free, and nothing
    /// else changes.
    pub open spec fn faulted_in(&self, after: &ProcessVm, addr: u64, allocated: Set<u64>) -> bool {
        let page = (addr / 4096) as u64;
        &&& after.page_table.map() == self.page_table.map().insert(page, after.entry(page))
        &&& after.entry(page).writable
        &&& !allocated.contains(after.entry(page).frame)
        &&& after.heap_end == self.heap_end
        &&& after.same_layout(self)
    }

    /// Whether a fault at `addr` with the error code `err_code` is
    /// answered when `available` frames are free: the page lies in the
    /// stack range, is not mapped, the fault is not a refused access to a
    /// page that is present, and a frame is free.
    pub open spec fn answers_fault(&self, addr: u64, err_code: u64, available: nat) -> bool {
        &&& in_stack((addr / 4096) as u64)
        &&& !self.mapped((addr / 4096) as u64)
        &&& err_code % 2 == 0
        &&& available > 0
    }

    /// Whether every byte of the `len` bytes from the address `addr` lies
    /// on a mapped page. A range of no bytes does, and a range that runs
    /// past the last address does not.
    pub open spec fn range_mapped(&self, addr: u64, len: u64) -> bool {
        len == 0 || (addr + len - 1 <= u64::MAX && forall|p: u64|
            addr / 4096 <= p <= (addr + len - 1) / 4096 ==> #[trigger] self.mapped(p))
    }

    /// Whether the program may be handed, or may hand over, the `len`
    /// bytes from the address `addr`; see [`Self::range_mapped`].
    pub fn holds_range(&self, addr: u64, len: u64) -> (b: bool)
        requires
            self.wf(),
        ensures
            b == self.range_mapped(addr, len),
    {
        if len == 0 {
            return true;
        }
        let end = match addr.checked_add(len - 1) {
            None => {
                return false;
            },
            Some(end) => end,
        };
        let last = end / PAGE_SIZE;
        let mut p = addr / PAGE_SIZE;
        loop
            invariant
                self.wf(),
                addr / 4096 <= p <= last,
                last == (addr + len - 1) / 4096,
                addr + len - 1 <= u64::MAX,
                len > 0,
                forall|q: u64| addr / 4096 <= q < p ==> #[trigger] self.mapped(q),
            decreases last - p,
        {
            if self.page_table.translate(p).is_none() {
                assert(!self.mapped(p));
                return false;
            }
            assert(self.mapped(p));
            if p == last {
                return true;
            }
            p += 1;
        }
    }

    /// Whether a fault at `addr` with the error code `err_code` would be
    /// answered now.
    pub fn fault_answerable(&self, addr: u64, err_code: u64, alloc: &FrameAllocator) -> (b: bool)
        requires
            self.wf(),
            alloc.wf(),
        ensures
            b == self.answers_fault(addr, err_code, alloc.available()),
    {
        let page = addr / PAGE_SIZE;
        page >= STACK_BOTTOM_PAGE && page < STACK_TOP_PAGE && err_code % 2 == 0
            && self.page_table.translate(page).is_none() && alloc.has_available(1)
    }

    /// Whether a request to end the heap at the address `addr` would be
    /// met now.
    pub fn heap_movable(&self, addr: u64, alloc: &FrameAllocator) -> (b: bool)
        requires
            self.wf(),
            alloc.wf(),
        ensures
            b == self.brk_moves(addr, alloc.available()),
    {
        let target: u64 = addr / PAGE_SIZE + if addr % PAGE_SIZE == 0 {
            0
        } else {
            1
        };
        if target < self.heap_base || target > self.heap_base + self.heap_max {
            false
        } else if target > self.heap_end {
            alloc.has_available(target - self.heap_end)
        } else {
            true
        }
    }

    /// Reports the end of the heap or moves it. Without an address nothing
    /// changes. With one, the end moves to that address rounded up to a
    /// page: pages below the new end are mapped writable on free frames,
    /// pages at or above it are unmapped and their frames given back. A
    /// request that cannot be met changes nothing. The answer is the
    /// address at which the heap ends afterwards.
    pub fn brk(&mut self, addr: Option<u64>, alloc: &mut FrameAllocator) -> (end: u64)
        requires
            old(self).wf(),
            old(alloc).wf(),
            old(self).frames().subset_of(old(alloc).allocated()),
        ensures
            final(self).wf(),
            final(alloc).wf(),
            final(alloc).limit == old(alloc).limit,
            final(self).frames().subset_of(final(alloc).allocated()),
            frames_exchanged(
                old(self).frames(),
                final(self).frames(),
                old(alloc).allocated(),
                final(alloc).allocated(),
            ),
            final(self).same_layout(old(self)),
            end == final(self).heap_end_addr(),
            match addr {
                None => *final(self) == *old(self) && *final(alloc) == *old(alloc),
                Some(a) => if old(self).brk_moves(a, old(alloc).available()) {
                    old(self).moved_to(final(self), a, old(alloc).allocated())
                } else {
                    *final(self) == *old(self) && *final(alloc) == *old(alloc)
                },
            },
    {
        let cur = self.heap_end;
        proof {
            lemma_exchange_nothing(self.frames(), alloc.allocated());
        }
        let a = match addr {
            None => {
                return cur * PAGE_SIZE;
            },
            Some(a) => a,
        };
        let target: u64 = a / PAGE_SIZE + if a % PAGE_SIZE == 0 {
            0
        } else {
            1
        };
        if target < self.heap_base || target > self.heap_base + self.heap_max {
            return cur * PAGE_SIZE;
        }
        if target > cur {
            if !alloc.has_available(target - cur) {
                return cur * PAGE_SIZE;
            }
            let mut p = cur;
            while p < target
                invariant
                    self.wf(),
                    alloc.wf(),
                    old(self).wf(),
                    alloc.limit == old(alloc).limit,
                    self.same_layout(old(self)),
                    self.heap_end == p,
                    cur == old(self).heap_end,
                    cur <= p <= target,
                    target <= self.heap_base + self.heap_max,
                    self.frames().subset_of(alloc.allocated()),
                    old(self).frames().subset_of(old(alloc).allocated()),
                    alloc.available() == old(alloc).available() - (p - cur),
                    old(alloc).available() >= target - cur,
                    old(self).frames().subset_of(self.frames()),
                    frames_exchanged(
                        old(self).frames(),
                        self.frames(),
                        old(alloc).allocated(),
                        alloc.allocated(),
                    ),
                    forall|q: u64| #[trigger] self.mapped(q) <==> old(self).mapped(q) || (cur <= q < p),
                    forall|q: u64| old(self).mapped(q) ==> #[trigger] self.entry(q) == old(self).entry(q),
                    forall|q: u64|
                        cur <= q < p ==> (#[trigger] self.entry(q)).writable && !old(alloc).allocated().contains(self.entry(q).frame),
                decreases target - p,
            {
                let ghost before = *self;
                let ghost alloc_before = alloc.allocated();
                proof {
                    if self.mapped(p) {
                        assert(old(self).mapped(p));
                    }
                }
                let done = self.page_table.map_fresh(p, true, alloc);
                self.heap_end = p + 1;
                proof {
                    assert(done);
                    let e = self.entry(p);
                    assert forall|q: u64| #[trigger] self.mapped(q) <==> old(self).mapped(q) || (cur <= q < p + 1) by {
                        if q != p {
                            assert(self.mapped(q) == before.mapped(q));
                        }
                    }
                    assert forall|q: u64| old(self).mapped(q)
                    implies #[trigger] self.entry(q) == old(self).entry(q) by {
                        assert(before.mapped(q));
                        assert(q != p);
                        assert(before.entry(q) == old(self).entry(q));
                    }
                    assert forall|q: u64| cur <= q < p + 1
                    implies (#[trigger] self.entry(q)).writable && !old(alloc).allocated().contains(self.entry(q).frame) by {
                        if q != p {
                            assert(before.entry(q).writable);
                            assert(self.entry(q) == before.entry(q));
                        } else {
                            assert(!alloc_before.contains(e.frame));
                            assert(!old(self).frames().contains(e.frame));
                        }
                    }
                    assert forall|q: u64| #[trigger] self.mapped(q) implies q < self.heap_base
                        || self.heap_base <= q < self.heap_end || in_stack(q) by {
                        if q != p {
                            assert(before.mapped(q));
                        }
                    }
                    assert forall|q: u64| self.heap_base <= q < self.heap_end
                    implies #[trigger] self.mapped(q) by {
                        if q != p {
                            assert(before.mapped(q));
                        }
                    }
                    assert(alloc.allocated() =~= old(alloc).allocated().difference(old(self).frames()).union(
                        self.frames(),
                    ));
                    assert(self.frames().difference(old(self).frames()).disjoint(old(alloc).allocated()));
                }
                p += 1;
            }
        } else {
            let mut p = cur;
            while p > target
                invariant
                    self.wf(),
                    alloc.wf(),
                    old(self).wf(),
                    alloc.limit == old(alloc).limit,
                    self.same_layout(old(self)),
                    self.heap_end == p,
                    cur == old(self).heap_end,
                    self.heap_base <= target <= p <= cur,
                    self.frames().subset_of(alloc.allocated()),
                    old(self).frames().subset_of(old(alloc).allocated()),
                    self.frames().subset_of(old(self).frames()),
                    frames_exchanged(
                        old(self).frames(),
                        self.frames(),
                        old(alloc).allocated(),
                        alloc.allocated(),
                    ),
                    forall|q: u64| #[trigger] self.mapped(q) <==> old(self).mapped(q) && !(p <= q < cur),
                    forall|q: u64| self.mapped(q) ==> #[trigger] self.entry(q) == old(self).entry(q),
                decreases p - target,
            {
                let ghost before = *self;
                let page = p - 1;
                proof {
                    assert(self.mapped(page));
                    self.page_table.lemma_frames();
                }
                let done = self.page_table.unmap(page, alloc);
                self.heap_end = page;
                proof {
                    assert(done);
                    assert forall|q: u64| #[trigger] self.mapped(q) <==> old(self).mapped(q) && !(page <= q < cur) by {
                        if q != page {
                            assert(self.mapped(q) == before.mapped(q));
                        }
                    }
                    assert forall|q: u64| self.mapped(q)
                    implies #[trigger] self.entry(q) == old(self).entry(q) by {
                        assert(before.mapped(q));
                        assert(before.entry(q) == old(self).entry(q));
                    }
                    assert forall|q: u64| #[trigger] self.mapped(q) implies q < self.heap_base
                        || self.heap_base <= q < self.heap_end || in_stack(q) by {
                        assert(before.mapped(q));
                    }
                    assert forall|q: u64| self.heap_base <= q < self.heap_end
                    implies #[trigger] self.mapped(q) by {
                        assert(before.mapped(q));
                    }
                    assert(alloc.allocated() =~= old(alloc).allocated().difference(old(self).frames()).union(
                        self.frames(),
                    ));
                }
                p = page;
            }
        }
        target * PAGE_SIZE
    }

    /// Builds the address space of a child: every page of this one, with
    /// the same rights, on a frame of its own that was free, and the same
    /// heap bounds. `None`, and nothing taken, when fewer frames are free
    /// than pages are mapped.
    pub fn fork(&self, alloc: &mut FrameAllocator) -> (r: Option<ProcessVm>)
        requires
            self.wf(),
            old(alloc).wf(),
            self.frames().subset_of(old(alloc).allocated()),
        ensures
            final(alloc).wf(),
            final(alloc).limit == old(alloc).limit,
            r is Some <==> old(alloc).available() >= self.page_table.table.entries@.len(),
            r is None ==> *final(alloc) == *old(alloc),
            r matches Some(c) ==> {
                &&& c.forked_from(self, old(alloc).allocated())
                &&& c.frames().disjoint(old(alloc).allocated())
                &&& c.frames().subset_of(final(alloc).allocated())
                &&& final(alloc).allocated() == old(alloc).allocated().union(c.frames())
            },
    {
        match self.page_table.fork(alloc) {
            None => None,
            Some(pt) => {
                let c = ProcessVm {
                    page_table: pt,
                    heap_base: self.heap_base,
                    heap_end: self.heap_end,
                    heap_max: self.heap_max,
                };
                proof {
                    c.page_table.lemma_copy(&self.page_table, old(alloc).allocated());
                    assert forall|p: u64| c.mapped(p) == self.mapped(p) by {
                        assert(c.page_table.map().dom().contains(p) == self.page_table.map().dom().contains(p));
                    }
                    assert forall|p: u64| #[trigger] c.mapped(p) implies p < c.heap_base || c.heap_base <= p
                        < c.heap_end || in_stack(p) by {
                        assert(self.mapped(p));
                    }
                    assert forall|p: u64| c.heap_base <= p < c.heap_end implies #[trigger] c.mapped(p) by {
                        assert(self.mapped(p));
                    }
                }
                Some(c)
            },
        }
    }

    /// Unmaps everything and gives every frame back; the heap is empty
    /// afterwards.
    pub fn release(&mut self, alloc: &mut FrameAllocator)
        requires
            old(self).wf(),
            old(alloc).wf(),
            old(self).frames().subset_of(old(alloc).allocated()),
        ensures
            final(self).wf(),
            final(alloc).wf(),
            final(alloc).limit == old(alloc).limit,
            final(self).same_layout(old(self)),
            final(self).heap_end == final(self).heap_base,
            final(self).frames() == Set::<u64>::empty(),
            final(self).page_table.map() == Map::<u64, PageEntry>::empty(),
            final(alloc).allocated() == old(alloc).allocated().difference(old(self).frames()),
            final(alloc).available() == old(alloc).available() + old(self).page_table.table.entries@.len(),
    {
        self.page_table.clear(alloc);
        self.heap_end = self.heap_base;
    }

    /// Lays out a program: maps every page of every segment of `image`
    /// on a free frame, with the segment's rights, and puts an empty heap
    /// of at most `heap_max` pages behind the code. `None`, and nothing
    /// taken, for an image that is not valid or needs more frames than are
    /// free.
    pub fn load(image: &ElfImage, heap_max: u64, alloc: &mut FrameAllocator) -> (r: Option<ProcessVm>)
        requires
            old(alloc).wf(),
        ensures
            final(alloc).wf(),
            final(alloc).limit == old(alloc).limit,
            r is Some <==> image.valid(heap_max) && old(alloc).available() >= total_pages(image.segments@),
            r is None ==> *final(alloc) == *old(alloc),
            r matches Some(vm) ==> {
                &&& vm.loaded_from(image, heap_max)
                &&& vm.frames().disjoint(old(alloc).allocated())
                &&& vm.frames().subset_of(final(alloc).allocated())
                &&& final(alloc).allocated() == old(alloc).allocated().union(vm.frames())
                &&& final(alloc).available() == old(alloc).available() - total_pages(image.segments@)
            },
    {
        let (end, total) = match image.measure(heap_max) {
            None => {
                return None;
            },
            Some(m) => m,
        };
        if !alloc.has_available(total) {
            return None;
        }
        let ghost segs = image.segments@;
        let mut pt = PageTableContext::new();
        let mut i: usize = 0;
        while i < image.segments.len()
            invariant
                segs == image.segments@,
                i <= segs.len(),
                image.valid(heap_max),
                pt.wf(),
                alloc.wf(),
                alloc.limit == old(alloc).limit,
                pt.frames().subset_of(alloc.allocated()),
                pt.frames().disjoint(old(alloc).allocated()),
                alloc.allocated() == old(alloc).allocated().union(pt.frames()),
                old(alloc).available() >= total_pages(segs),
                alloc.available() == old(alloc).available() - total_pages(segs.take(i as int)),
                total_pages(segs.take(i as int)) <= total_pages(segs),
                forall|q: u64| #[trigger] pt.map().contains_key(q) <==> covered(segs, i as int, q as int),
                forall|j: int, q: u64|
                    0 <= j < i && (#[trigger] segs[j]).covers(q as int) ==> (#[trigger] pt.map()[q]).writable
                        == segs[j].writable,
            decreases segs.len() - i,
        {
            let seg = image.segments[i];
            proof {
                lemma_total_pages_step(segs, i as int);
                lemma_segment_bounds(segs, i as int, heap_max);
            }
            let first = seg.start / PAGE_SIZE;
            let last = seg.start + seg.size;
            let stop = last / PAGE_SIZE + if last % PAGE_SIZE == 0 {
                0
            } else {
                1
            };
            let mut p = first;
            while p < stop
                invariant
                    segs == image.segments@,
                    i < segs.len(),
                    seg == segs[i as int],
                    first == seg.first_page(),
                    stop == seg.end_page(),
                    first <= p <= stop,
                    image.valid(heap_max),
                    pt.wf(),
                    alloc.wf(),
                    alloc.limit == old(alloc).limit,
                    pt.frames().subset_of(alloc.allocated()),
                    pt.frames().disjoint(old(alloc).allocated()),
                    alloc.allocated() == old(alloc).allocated().union(pt.frames()),
                    old(alloc).available() >= total_pages(segs),
                    total_pages(segs.take(i + 1)) == total_pages(segs.take(i as int)) + stop - first,
                    total_pages(segs.take(i + 1)) <= total_pages(segs),
                    alloc.available() == old(alloc).available() - total_pages(segs.take(i as int)) - (p
                        - first),
                    forall|q: u64| #[trigger]
                        pt.map().contains_key(q) <==> covered(segs, i as int, q as int) || first <= q < p,
                    forall|j: int, q: u64|
                        0 <= j < i && (#[trigger] segs[j]).covers(q as int) ==> (#[trigger] pt.map()[q]).writable
                            == segs[j].writable,
                    forall|q: u64| first <= q < p ==> (#[trigger] pt.map()[q]).writable == seg.writable,
                decreases stop - p,
            {
                let ghost before = pt;
                let ghost alloc_before = alloc.allocated();
                proof {
                    if covered(segs, i as int, p as int) {
                        let j = choose|j: int| 0 <= j < i && j < segs.len() && (#[trigger] segs[j]).covers(
                            p as int,
                        );
                        assert(segs[j].end_page() <= segs[i as int].first_page());
                    }
                }
                let done = pt.map_fresh(p, seg.writable, alloc);
                proof {
                    assert(done);
                    let e = pt.map()[p];
                    assert forall|q: u64| #[trigger]
                        pt.map().contains_key(q) <==> covered(segs, i as int, q as int) || first <= q < p + 1 by {
                        if q != p {
                            assert(pt.map().contains_key(q) == before.map().contains_key(q));
                        }
                    }
                    assert forall|j: int, q: u64|
                        0 <= j < i && (#[trigger] segs[j]).covers(q as int) implies (#[trigger] pt.map()[q]).writable
                        == segs[j].writable by {
                        assert(segs[j].end_page() <= segs[i as int].first_page());
                        assert(q != p);
                        assert(before.map()[q].writable == segs[j].writable);
                    }
                    assert forall|q: u64| first <= q < p + 1 implies (#[trigger] pt.map()[q]).writable
                        == seg.writable by {
                        if q != p {
                            assert(before.map()[q].writable == seg.writable);
                        }
                    }
                    assert(alloc.allocated() =~= old(alloc).allocated().union(pt.frames()));
                }
                p += 1;
            }
            proof {
                assert forall|q: u64| #[trigger] pt.map().contains_key(q) <==> covered(segs, i + 1, q as int) by {
                    if covered(segs, i + 1, q as int) {
                        let j = choose|j: int| 0 <= j < i + 1 && j < segs.len() && (#[trigger] segs[j]).covers(
                            q as int,
                        );
                        if j < i {
                            assert(covered(segs, i as int, q as int));
                        }
                    }
                    if covered(segs, i as int, q as int) {
                        let j = choose|j: int| 0 <= j < i && j < segs.len() && (#[trigger] segs[j]).covers(
                            q as int,
                        );
                        assert(segs[j].covers(q as int));
                    }
                    if first <= q < stop {
                        assert(segs[i as int].covers(q as int));
                    }
                }
                assert forall|j: int, q: u64|
                    0 <= j < i + 1 && (#[trigger] segs[j]).covers(q as int) implies (#[trigger] pt.map()[q]).writable
                    == segs[j].writable by {
                    if j == i {
                        assert(first <= q < stop);
                    }
                }
            }
            i += 1;
        }
        let vm = ProcessVm { page_table: pt, heap_base: end, heap_end: end, heap_max };
        proof {
            assert(segs.take(segs.len() as int) == segs);
            assert forall|p: u64| #[trigger] vm.mapped(p) implies p < vm.heap_base by {
                let j = choose|j: int| 0 <= j < segs.len() && (#[trigger] segs[j]).covers(p as int);
                lemma_segment_bounds(segs, j, heap_max);
            }
        }
        Some(vm)
    }
}

/// An address space that keeps its frames exchanges nothing.
pub proof fn lemma_exchange_nothing(frames: Set<u64>, allocated: Set<u64>)
    requires
        frames.subset_of(allocated),
    ensures
        frames_exchanged(frames, frames, allocated, allocated),
{
    assert(allocated.difference(frames).union(frames) =~= allocated);
}

/// The pages of the first `i + 1` segments are those of the first `i` and
/// those of segment `i`, and no more than the pages of all segments.
pub proof fn lemma_total_pages_step(segs: Seq<Segment>, i: int)
    requires
        0 <= i < segs.len(),
    ensures
        total_pages(segs.take(i + 1)) == total_pages(segs.take(i)) + segs[i].end_page() - segs[i].first_page(),
        total_pages(segs.take(i + 1)) <= total_pages(segs),
        0 <= total_pages(segs.take(i)),
    decreases segs.len() - i,
{
    let next = segs.take(i + 1);
    assert(next.drop_last() == segs.take(i));
    assert(next.last() == segs[i]);
    lemma_total_pages_nonnegative(segs.take(i));
    if i + 1 < segs.len() {
        lemma_total_pages_step(segs, i + 1);
    } else {
        assert(segs.take(i + 1) == segs);
    }
}

/// Segments take no negative number of pages.
pub proof fn lemma_total_pages_nonnegative(segs: Seq<Segment>)
    ensures
        0 <= total_pages(segs),
    decreases segs.len(),
{
    if segs.len() > 0 {
        lemma_total_pages_nonnegative(segs.drop_last());
    }
}

/// In a valid image every segment ends at or before the end of the code,
/// which leaves room for the heap below the stack.
pub proof fn lemma_segment_bounds(segs: Seq<Segment>, i: int, heap_max: u64)
    requires
        0 <= i < segs.len(),
        segments_ordered(segs),
        code_end(segs) + heap_max <= STACK_BOTTOM_PAGE,
    ensures
        segs[i].first_page() <= segs[i].end_page() <= code_end(segs),
        code_end(segs) <= STACK_BOTTOM_PAGE,
{
    if i != segs.len() - 1 {
        assert(segs[i].end_page() <= segs[segs.len() - 1].first_page());
        assert(segs[segs.len() - 1].first_page() <= segs[segs.len() - 1].end_page());
    }
}

} // verus!
