use arrayvec::ArrayVec;
use vstd::prelude::*;

use crate::apps::{list_item, list_len, listed, App};
use crate::context::Selectors;

verus! {

/// One stretch of physical memory, in frames.
#[derive(Clone, Copy, Debug, PartialEq, Eq, Structural)]
pub struct MemoryRegion {
    pub first_frame: u64,
    pub frames: u64,
    pub usable: bool,
}

/// A range of pages, both ends included.
#[derive(Clone, Copy, Debug, PartialEq, Eq, Structural)]
pub struct PageRange {
    pub first: u64,
    pub last: u64,
}

/// The most regions that a memory map holds.
pub const MAX_REGIONS: usize = 256;

/// The most programs that the boot loader hands over.
pub const MAX_APPS: usize = 16;

/// What the boot loader hands to the kernel: the map of physical memory,
/// the offset at which physical memory is mapped, the programs it loaded,
/// the level of logging, the pages of the kernel's own image, the
/// selectors for user mode, and the limit of a user heap in pages.
pub struct BootInfo {
    pub memory_map: ArrayVec<MemoryRegion, 256>,
    pub physical_memory_offset: u64,
    pub loaded_apps: Option<ArrayVec<App, 16>>,
    pub log_level: String,
    pub kernel_pages: ArrayVec<PageRange, 8>,
    pub user_selectors: Selectors,
    pub heap_max_pages: u64,
}

/// The regions that a memory map holds, in the order of the map.
pub uninterp spec fn mapped(map: ArrayVec<MemoryRegion, 256>) -> Seq<MemoryRegion>;

/// The number of regions in the map. This is `ArrayVec::len`, believed
/// here to count the items that the map holds.
#[verifier::external_body]
pub(crate) fn map_len(map: &ArrayVec<MemoryRegion, 256>) -> (n: usize)
    ensures
        n == mapped(*map).len(),
{
    map.len()
}

/// The region in row `i` of the map. This is `ArrayVec::as_slice`,
/// believed here to show the items that the map holds, in their order.
#[verifier::external_body]
pub(crate) fn map_item(map: &ArrayVec<MemoryRegion, 256>, i: usize) -> (region: MemoryRegion)
    requires
        i < mapped(*map).len(),
    ensures
        region == mapped(*map)[i as int],
{
    map.as_slice()[i]
}

impl BootInfo {
    /// The boot loader has kept to its bounds: no more regions and no
    /// more programs than it may hand over, and no program with a name
    /// longer than it may be.
    pub open spec fn valid(&self) -> bool {
        &&& mapped(self.memory_map).len() <= MAX_REGIONS
        &&& match self.loaded_apps {
            Some(apps) => listed(apps).len() <= MAX_APPS && forall|i: int|
                0 <= i < listed(apps).len() ==> (#[trigger] listed(apps)[i]).valid(),
            None => true,
        }
    }

    /// Whether the boot loader has kept to its bounds; see
    /// [`Self::valid`].
    pub fn is_valid(&self) -> (b: bool)
        ensures
            b == self.valid(),
    {
        if map_len(&self.memory_map) > MAX_REGIONS {
            return false;
        }
        match &self.loaded_apps {
            None => true,
            Some(apps) => {
                let n = list_len(apps);
                if n > MAX_APPS {
                    return false;
                }
                let mut i: usize = 0;
                while i < n
                    invariant
                        self.loaded_apps == Some(*apps),
                        mapped(self.memory_map).len() <= MAX_REGIONS,
                        n == listed(*apps).len(),
                        n <= MAX_APPS,
                        i <= n,
                        forall|j: int| 0 <= j < i ==> (#[trigger] listed(*apps)[j]).valid(),
                    decreases n - i,
                {
                    if !list_item(apps, i).is_valid() {
                        return false;
                    }
                    i += 1;
                }
                true
            },
        }
    }
}

/// The frames of the usable regions of `map`, counted together.
pub open spec fn usable_frames(map: Seq<MemoryRegion>) -> nat
    decreases map.len(),
{
    if map.len() == 0 {
        0
    } else {
        usable_frames(map.drop_last()) + if map.last().usable {
            map.last().frames as nat
        } else {
            0
        }
    }
}

/// The number of usable frames of `map`, or the largest number that fits
/// where there are more.
pub fn count_usable(map: &ArrayVec<MemoryRegion, 256>) -> (n: u64)
    ensures
        n == if usable_frames(mapped(*map)) <= u64::MAX {
            usable_frames(mapped(*map))
        } else {
            u64::MAX as nat
        },
{
    let ghost rows = mapped(*map);
    let len = map_len(map);
    let mut n: u64 = 0;
    let mut i: usize = 0;
    while i < len
        invariant
            rows == mapped(*map),
            len == rows.len(),
            i <= len,
            n == if usable_frames(rows.take(i as int)) <= u64::MAX {
                usable_frames(rows.take(i as int))
            } else {
                u64::MAX as nat
            },
        decreases len - i,
    {
        proof {
            assert(rows.take(i + 1).drop_last() == rows.take(i as int));
            assert(rows.take(i + 1).last() == rows[i as int]);
        }
        let region = map_item(map, i);
        if region.usable {
            n = n.saturating_add(region.frames);
        }
        i += 1;
    }
    proof {
        assert(rows.take(len as int) == rows);
    }
    n
}

/// The frames that the region offers to the allocator.
pub open spec fn offered(region: MemoryRegion) -> nat {
    if region.usable {
        region.frames as nat
    } else {
        0
    }
}

/// The physical frame that is number `index` among the usable frames of
/// `map`, counted region by region in the order of the map.
pub open spec fn nth_usable(map: Seq<MemoryRegion>, index: nat) -> Option<int>
    decreases map.len(),
{
    if map.len() == 0 {
        None
    } else if index < offered(map[0]) {
        Some(map[0].first_frame + index)
    } else {
        nth_usable(map.subrange(1, map.len() as int), (index - offered(map[0])) as nat)
    }
}

/// The physical frame behind the number `index` of the allocator, which
/// counts the usable frames of `map` from 0; none where the map has fewer
/// usable frames or the frame's number does not fit into 64 bits.
pub fn frame_number(map: &ArrayVec<MemoryRegion, 256>, index: u64) -> (r: Option<u64>)
    ensures
        r == match nth_usable(mapped(*map), index as nat) {
            Some(frame) => if frame <= u64::MAX {
                Some(frame as u64)
            } else {
                None
            },
            None => None,
        },
{
    let ghost rows = mapped(*map);
    let len = map_len(map);
    let mut left = index;
    let mut i: usize = 0;
    proof {
        assert(rows.subrange(0, rows.len() as int) == rows);
    }
    while i < len
        invariant
            rows == mapped(*map),
            len == rows.len(),
            i <= len,
            nth_usable(rows, index as nat) == nth_usable(rows.subrange(i as int, rows.len() as int), left as nat),
        decreases len - i,
    {
        let region = map_item(map, i);
        proof {
            let rest = rows.subrange(i as int, rows.len() as int);
            assert(rest[0] == region);
            assert(rest.subrange(1, rest.len() as int) == rows.subrange(i + 1, rows.len() as int));
        }
        if region.usable {
            if left < region.frames {
                return region.first_frame.checked_add(left);
            }
            left = left - region.frames;
        }
        i += 1;
    }
    None
}

} // verus!
