use vstd::prelude::*;

use crate::paging::PageTableContext;
use crate::table::{lemma_key_row, lemma_row, slot_of};

verus! {

/// Physical memory as the proofs see it: the bytes of each frame.
pub struct Memory {
    pub frames: Map<u64, Seq<u8>>,
}

/// The byte that a program with the mapping `space` finds at the address
/// `addr`, if the page of that address is mapped.
pub open spec fn read(space: &PageTableContext, mem: Memory, addr: u64) -> Option<u8> {
    let page = (addr / 4096) as u64;
    if space.map().contains_key(page) {
        Some(mem.frames[space.map()[page].frame][(addr % 4096) as int])
    } else {
        None
    }
}

/// The two memories hold the same bytes in every frame outside `frames`.
pub open spec fn same_outside(a: Memory, b: Memory, frames: Set<u64>) -> bool {
    forall|f: u64| !frames.contains(f) ==> #[trigger] a.frames[f] == b.frames[f]
}

/// Memory after every frame of `child` has received the bytes of the frame
/// that backs the same page in `parent`.
pub open spec fn duplicated(mem: Memory, parent: &PageTableContext, child: &PageTableContext) -> Memory {
    Memory {
        frames: Map::new(
            |f: u64| true,
            |f: u64|
                if child.frames().contains(f) {
                    let i = choose|i: int|
                        0 <= i < child.table.entries@.len() && (#[trigger] child.table.entries@[i]).value.frame
                            == f;
                    mem.frames[parent.table.entries@[i].value.frame]
                } else {
                    mem.frames[f]
                },
        ),
    }
}

/// Whatever is written to the frames of a forked child, the parent reads
/// at every address what it read before the fork.
pub proof fn lemma_parent_memory_isolated(
    parent: &PageTableContext,
    child: &PageTableContext,
    allocated: Set<u64>,
    before: Memory,
    after: Memory,
    addr: u64,
)
    requires
        parent.wf(),
        parent.frames().subset_of(allocated),
        child.is_copy_of(parent, allocated),
        same_outside(before, after, child.frames()),
    ensures
        read(parent, after, addr) == read(parent, before, addr),
{
    let page = (addr / 4096) as u64;
    if parent.map().contains_key(page) {
        parent.lemma_frames();
        child.lemma_copy(parent, allocated);
        let f = parent.map()[page].frame;
        assert(parent.frames().contains(f));
        assert(allocated.contains(f));
        assert(!child.frames().contains(f));
        assert(after.frames[f] == before.frames[f]);
    }
}

/// Once the frames of a forked child have received their copies, the child
/// reads at every address what the parent read at the fork.
pub proof fn lemma_child_memory_is_copy(
    parent: &PageTableContext,
    child: &PageTableContext,
    allocated: Set<u64>,
    before: Memory,
    addr: u64,
)
    requires
        parent.wf(),
        parent.frames().subset_of(allocated),
        child.is_copy_of(parent, allocated),
    ensures
        read(child, duplicated(before, parent, child), addr) == read(parent, before, addr),
        same_outside(before, duplicated(before, parent, child), child.frames()),
{
    let page = (addr / 4096) as u64;
    let a = child.table.entries@;
    let b = parent.table.entries@;
    child.lemma_copy(parent, allocated);
    assert(child.map().dom().contains(page) == parent.map().dom().contains(page));
    if child.map().contains_key(page) {
        lemma_key_row(a, page);
        let i = slot_of(a, page);
        assert(a[i].key == b[i].key);
        lemma_row(b, i);
        let f = a[i].value.frame;
        assert(child.frames().contains(f));
        let j = choose|j: int| 0 <= j < a.len() && (#[trigger] a[j]).value.frame == f;
        assert(j == i);
    }
}

} // verus!
