//! Physical memory: the boot-time frame allocator.
//!
//! The bootloader hands over an ordered list of physical memory regions;
//! the allocator scans it once, forward only, and yields page-sized,
//! page-aligned frames that lie entirely inside usable regions. Frames are
//! never freed or reused: kernel-lifetime memory is never returned.

use vstd::prelude::*;

verus! {

/// Size of a physical frame and of a virtual page, in bytes.
pub const PAGE_SIZE: u64 = 4096;

/// Region kind markers: a region is either usable or reserved.
pub const REGION_USABLE: u64 = 1;

/// A memory region descriptor from the bootloader. `kind` is
/// `REGION_USABLE` for usable memory; anything else is reserved.
#[derive(Clone, Copy, Debug, PartialEq, Eq, Structural)]
pub struct MemoryRegion {
    pub start: u64,
    pub end: u64,
    pub kind: u64,
}

/// Whether a region may be handed out as frames.
pub open spec fn spec_usable(r: MemoryRegion) -> bool {
    r.kind == REGION_USABLE
}

/// First page-aligned address at or above `a`.
pub open spec fn spec_align_up(a: int) -> int {
    ((a + (PAGE_SIZE - 1)) / (PAGE_SIZE as int)) * (PAGE_SIZE as int)
}

/// Rounding up to a page boundary stays within one page and lands on a
/// page-aligned address.
pub proof fn lemma_align_up(a: int)
    requires
        a >= 0,
    ensures
        a <= spec_align_up(a) < a + PAGE_SIZE,
        spec_align_up(a) % (PAGE_SIZE as int) == 0,
{
    let p = PAGE_SIZE as int;
    let d = (a + (p - 1)) / p;
    vstd::arithmetic::div_mod::lemma_fundamental_div_mod(a + (p - 1), p);
    assert(d * p == a + (p - 1) - ((a + (p - 1)) % p));
    vstd::arithmetic::div_mod::lemma_mod_division_less_than_divisor(a + (p - 1), p);
    vstd::arithmetic::div_mod::lemma_mod_multiples_basic(d, p);
}

/// The frames of one region, starting at the page-aligned address `f`:
/// every page-sized step that still lies entirely below `end`.
pub open spec fn spec_frames_from(end: int, f: int) -> Seq<u64>
    decreases end - f when f >= 0
{
    if f + PAGE_SIZE <= end && f + PAGE_SIZE <= u64::MAX {
        seq![f as u64] + spec_frames_from(end, f + PAGE_SIZE)
    } else {
        Seq::empty()
    }
}

/// All frames the allocator will yield from region `i` on, in scan order.
pub open spec fn spec_frames_of_regions(regions: Seq<MemoryRegion>, i: int) -> Seq<u64>
    decreases regions.len() - i when 0 <= i
{
    if i >= regions.len() {
        Seq::empty()
    } else {
        let head = if spec_usable(regions[i]) {
            spec_frames_from(regions[i].end as int, spec_align_up(regions[i].start as int))
        } else {
            Seq::empty()
        };
        head + spec_frames_of_regions(regions, i + 1)
    }
}

/// A simple frame allocator that iterates over usable memory regions.
pub struct BootInfoFrameAllocator {
    memory_regions: Vec<MemoryRegion>,
    next_region: usize,
    current_frame: Option<u64>,
}

impl BootInfoFrameAllocator {
    /// The region list the allocator was built over.
    pub closed spec fn regions(&self) -> Seq<MemoryRegion> {
        self.memory_regions@
    }

    /// The cursor is inside the list, and an open frame is page-aligned
    /// and fits, with at least one page to yield, inside the usable region
    /// it points into.
    pub closed spec fn wf(&self) -> bool {
        &&& self.next_region <= self.regions().len()
        &&& match self.current_frame {
            Option::Some(f) => {
                &&& self.next_region < self.regions().len()
                &&& spec_usable(self.regions()[self.next_region as int])
                &&& f as int % (PAGE_SIZE as int) == 0
                &&& self.regions()[self.next_region as int].start <= f
                &&& f + PAGE_SIZE <= self.regions()[self.next_region as int].end
                &&& f + PAGE_SIZE <= u64::MAX
            },
            Option::None => true,
        }
    }

    /// How many loop steps can still happen before the current region
    /// either yields or is closed.
    pub closed spec fn cursor_steps(&self) -> int {
        if self.current_frame is None {
            1
        } else {
            0
        }
    }

    /// The frames still to be yielded, in order.
    pub closed spec fn remaining(&self) -> Seq<u64> {
        match self.current_frame {
            Option::Some(f) => spec_frames_from(
                self.regions()[self.next_region as int].end as int,
                f as int,
            ) + spec_frames_of_regions(self.regions(), self.next_region + 1),
            Option::None => spec_frames_of_regions(self.regions(), self.next_region as int),
        }
    }

    /// Initialize from a list of memory regions.
    pub fn init(memory_regions: Vec<MemoryRegion>) -> (a: BootInfoFrameAllocator)
        ensures
            a.wf(),
            a.regions() == memory_regions@,
            a.remaining() == spec_frames_of_regions(memory_regions@, 0),
    {
        BootInfoFrameAllocator { memory_regions, next_region: 0, current_frame: None }
    }

    /// Get the next usable frame.
    fn next_usable_frame(&mut self) -> (r: Option<u64>)
        requires
            old(self).wf(),
        ensures
            final(self).wf(),
            final(self).regions() == old(self).regions(),
            old(self).remaining().len() > 0 ==> r == Some(old(self).remaining()[0])
                && final(self).remaining() == old(self).remaining().drop_first(),
            old(self).remaining().len() == 0 ==> r is None && final(self).remaining()
                == old(self).remaining(),
    {
        loop
            invariant
                self.wf(),
                self.regions() == old(self).regions(),
                self.remaining() == old(self).remaining(),
            decreases self.regions().len() - self.next_region, self.cursor_steps(),
        {
            if let Some(frame) = self.current_frame {
                // An open frame always fits its region, so yield it and
                // move the cursor one page forward, or close the region
                // when the next page would leave it.
                let region_end = self.memory_regions[self.next_region].end;
                let next_start = frame + PAGE_SIZE;
                proof {
                    let end = region_end as int;
                    let rest = spec_frames_of_regions(self.regions(), self.next_region + 1);
                    assert(spec_frames_from(end, frame as int) =~= seq![frame] + spec_frames_from(
                        end,
                        frame + PAGE_SIZE,
                    ));
                    assert((seq![frame] + spec_frames_from(end, frame + PAGE_SIZE) + rest)
                        .drop_first() =~= spec_frames_from(end, frame + PAGE_SIZE) + rest);
                }
                if next_start <= region_end - PAGE_SIZE && next_start <= u64::MAX - PAGE_SIZE {
                    // still inside this region
                    proof {
                        vstd::arithmetic::div_mod::lemma_mod_add_multiples_vanish(
                            frame as int,
                            PAGE_SIZE as int,
                        );
                    }
                    self.current_frame = Some(next_start);
                } else {
                    // move to next region
                    proof {
                        assert(spec_frames_from(region_end as int, next_start as int)
                            =~= Seq::<u64>::empty());
                    }
                    let len = self.memory_regions.len();
                    assert(self.next_region < len);
                    self.next_region = self.next_region + 1;
                    self.current_frame = None;
                }
                assert(self.remaining() =~= old(self).remaining().drop_first());
                return Some(frame);
            } else {
                // find next usable region
                if self.next_region >= self.memory_regions.len() {
                    return None;  // no more frames
                }
                let region = self.memory_regions[self.next_region];
                proof {
                    assert(spec_frames_of_regions(self.regions(), self.next_region as int)
                        == (if spec_usable(region) {
                            spec_frames_from(
                                region.end as int,
                                spec_align_up(region.start as int),
                            )
                        } else {
                            Seq::<u64>::empty()
                        }) + spec_frames_of_regions(self.regions(), self.next_region + 1));
                    lemma_align_up(region.start as int);
                }
                if region.kind == REGION_USABLE && region.start <= u64::MAX - (PAGE_SIZE - 1) {
                    let aligned = ((region.start + (PAGE_SIZE - 1)) / PAGE_SIZE) * PAGE_SIZE;
                    assert(aligned == spec_align_up(region.start as int));
                    if region.end >= PAGE_SIZE && aligned <= region.end - PAGE_SIZE && aligned
                        <= u64::MAX - PAGE_SIZE {
                        self.current_frame = Some(aligned);
                    } else {
                        // the region cannot hold even one aligned frame
                        proof {
                            assert(spec_frames_from(region.end as int, aligned as int)
                                =~= Seq::<u64>::empty());
                        }
                        self.next_region = self.next_region + 1;
                    }
                } else {
                    // skip reserved regions, and regions so close to the top
                    // of the address space that no aligned frame fits
                    proof {
                        if spec_usable(region) {
                            assert(spec_frames_from(
                                region.end as int,
                                spec_align_up(region.start as int),
                            ) =~= Seq::<u64>::empty());
                        }
                    }
                    self.next_region = self.next_region + 1;
                }
            }
        }
    }

    /// Yield the next frame: the start address of a page-sized unit of
    /// physical memory lying entirely inside a usable region, or `None`
    /// once every usable frame has been consumed.
    pub fn allocate_frame(&mut self) -> (r: Option<u64>)
        requires
            old(self).wf(),
        ensures
            final(self).wf(),
            final(self).regions() == old(self).regions(),
            old(self).remaining().len() > 0 ==> r == Some(old(self).remaining()[0])
                && final(self).remaining() == old(self).remaining().drop_first(),
            old(self).remaining().len() == 0 ==> r is None && final(self).remaining()
                == old(self).remaining(),
    {
        self.next_usable_frame()
    }

    /// Every frame the allocator will still yield, from any reachable
    /// state, is page-aligned and lies entirely inside some usable region
    /// of its list: with `allocate_frame` always handing out the head of
    /// `remaining`, nothing else is ever yielded.
    pub proof fn lemma_remaining_in_usable(&self)
        requires
            self.wf(),
        ensures
            forall|k: int|
                0 <= k < self.remaining().len() ==> spec_in_some_usable_region(
                    self.regions(),
                    0,
                    #[trigger] self.remaining()[k],
                ),
    {
        let regions = self.regions();
        match self.current_frame {
            Option::Some(f) => {
                let i = self.next_region as int;
                let end = regions[i].end as int;
                let head = spec_frames_from(end, f as int);
                let tail = spec_frames_of_regions(regions, i + 1);
                lemma_frames_from_bounds(end, f as int);
                lemma_frames_in_usable_regions(regions, i + 1);
                assert forall|k: int| 0 <= k < (head + tail).len() implies
                    spec_in_some_usable_region(regions, 0, #[trigger] (head + tail)[k]) by {
                    if k < head.len() {
                        assert((head + tail)[k] == head[k]);
                        assert(regions[i].start <= head[k] && head[k] + PAGE_SIZE <= regions[i].end);
                    } else {
                        assert((head + tail)[k] == tail[k - head.len()]);
                        assert(spec_in_some_usable_region(regions, i + 1, tail[k - head.len()]));
                        let j = choose|j: int|
                            i + 1 <= j < regions.len() && spec_usable(regions[j])
                                && regions[j].start <= tail[k - head.len()] && tail[k - head.len()]
                                + PAGE_SIZE <= regions[j].end;
                        assert(0 <= j < regions.len() && spec_usable(regions[j])
                            && regions[j].start <= (head + tail)[k] && (head + tail)[k] + PAGE_SIZE
                            <= regions[j].end);
                    }
                }
            },
            Option::None => {
                let i = self.next_region as int;
                lemma_frames_in_usable_regions(regions, i);
                assert forall|k: int| 0 <= k < self.remaining().len() implies
                    spec_in_some_usable_region(regions, 0, #[trigger] self.remaining()[k]) by {
                    assert(spec_in_some_usable_region(regions, i, self.remaining()[k]));
                    let j = choose|j: int|
                        i <= j < regions.len() && spec_usable(regions[j]) && regions[j].start
                            <= self.remaining()[k] && self.remaining()[k] + PAGE_SIZE
                            <= regions[j].end;
                    assert(0 <= j < regions.len() && spec_usable(regions[j]) && regions[j].start
                        <= self.remaining()[k] && self.remaining()[k] + PAGE_SIZE
                        <= regions[j].end);
                }
            },
        }
    }

    /// When the region list is ordered by address, the frames still to be
    /// yielded, from any reachable state, come out in strictly increasing
    /// address order — each allocation hands out the head of `remaining`,
    /// so the whole yield sequence is ordered too.
    pub proof fn lemma_remaining_sorted(&self)
        requires
            self.wf(),
            spec_regions_ordered(self.regions()),
        ensures
            forall|a: int, b: int|
                0 <= a < b < self.remaining().len() ==> self.remaining()[a] < self.remaining()[b],
    {
        let regions = self.regions();
        match self.current_frame {
            Option::Some(f) => {
                let i = self.next_region as int;
                let end = regions[i].end as int;
                let head = spec_frames_from(end, f as int);
                let tail = spec_frames_of_regions(regions, i + 1);
                lemma_frames_from_bounds(end, f as int);
                lemma_frames_sorted(regions, i + 1);
                lemma_frames_in_usable_regions(regions, i + 1);
                assert forall|a: int, b: int| 0 <= a < b < (head + tail).len() implies (head
                    + tail)[a] < (head + tail)[b] by {
                    if b < head.len() {
                    } else if a >= head.len() {
                        assert((head + tail)[a] == tail[a - head.len()]);
                        assert((head + tail)[b] == tail[b - head.len()]);
                    } else {
                        // a frame of the open region against one of a
                        // later region
                        let gb = tail[b - head.len()];
                        assert(spec_in_some_usable_region(regions, i + 1, gb));
                        let j = choose|j: int|
                            i + 1 <= j < regions.len() && spec_usable(regions[j])
                                && regions[j].start <= gb && gb + PAGE_SIZE <= regions[j].end;
                        assert(regions[i].end <= regions[j].start);
                        assert(head[a] + PAGE_SIZE <= regions[i].end);
                    }
                }
            },
            Option::None => {
                lemma_frames_sorted(regions, self.next_region as int);
            },
        }
    }
}

/// Every frame of one region's tail lies at or after `f`, is page-aligned,
/// and lies entirely below `end`.
pub proof fn lemma_frames_from_bounds(end: int, f: int)
    requires
        f >= 0,
        f % (PAGE_SIZE as int) == 0,
    ensures
        forall|k: int|
            0 <= k < spec_frames_from(end, f).len() ==> f <= #[trigger] spec_frames_from(end, f)[k]
                && spec_frames_from(end, f)[k] + PAGE_SIZE <= end && spec_frames_from(end, f)[k]
                as int % (PAGE_SIZE as int) == 0,
        forall|a: int, b: int|
            0 <= a < b < spec_frames_from(end, f).len() ==> spec_frames_from(end, f)[a]
                < spec_frames_from(end, f)[b],
    decreases end - f
{
    if f + PAGE_SIZE <= end && f + PAGE_SIZE <= u64::MAX {
        vstd::arithmetic::div_mod::lemma_mod_add_multiples_vanish(f, PAGE_SIZE as int);
        lemma_frames_from_bounds(end, f + PAGE_SIZE);
        assert(spec_frames_from(end, f) =~= seq![f as u64] + spec_frames_from(
            end,
            f + PAGE_SIZE,
        ));
    }
}

/// A page-aligned frame lying entirely inside some usable region at or
/// after index `i`.
pub open spec fn spec_in_some_usable_region(regions: Seq<MemoryRegion>, i: int, g: u64) -> bool {
    g as int % (PAGE_SIZE as int) == 0 && exists|j: int|
        i <= j < regions.len() && spec_usable(regions[j]) && regions[j].start <= g && g + PAGE_SIZE
            <= regions[j].end
}

/// Every frame the allocator will yield lies entirely inside some usable
/// region of the list, at a page-aligned address.
pub proof fn lemma_frames_in_usable_regions(regions: Seq<MemoryRegion>, i: int)
    requires
        0 <= i,
    ensures
        forall|k: int|
            0 <= k < spec_frames_of_regions(regions, i).len() ==> spec_in_some_usable_region(
                regions,
                i,
                #[trigger] spec_frames_of_regions(regions, i)[k],
            ),
    decreases regions.len() - i
{
    if i < regions.len() {
        lemma_frames_in_usable_regions(regions, i + 1);
        let head = if spec_usable(regions[i]) {
            spec_frames_from(regions[i].end as int, spec_align_up(regions[i].start as int))
        } else {
            Seq::<u64>::empty()
        };
        let tail = spec_frames_of_regions(regions, i + 1);
        if spec_usable(regions[i]) {
            lemma_align_up(regions[i].start as int);
            lemma_frames_from_bounds(regions[i].end as int, spec_align_up(regions[i].start as int));
        }
        assert forall|k: int| 0 <= k < (head + tail).len() implies spec_in_some_usable_region(
            regions,
            i,
            (head + tail)[k],
        ) by {
            if k < head.len() {
                assert((head + tail)[k] == head[k]);
                assert(regions[i].start <= head[k] && head[k] + PAGE_SIZE <= regions[i].end);
            } else {
                assert((head + tail)[k] == tail[k - head.len()]);
                assert(spec_in_some_usable_region(regions, i + 1, tail[k - head.len()]));
                let j = choose|j: int|
                    i + 1 <= j < regions.len() && spec_usable(regions[j]) && regions[j].start <= tail[k
                        - head.len()] && tail[k - head.len()] + PAGE_SIZE <= regions[j].end;
                assert(i <= j < regions.len() && spec_usable(regions[j]) && regions[j].start <= (head
                    + tail)[k] && (head + tail)[k] + PAGE_SIZE <= regions[j].end);
            }
        }
    }
}

/// Regions listed in ascending, non-overlapping address order.
pub open spec fn spec_regions_ordered(regions: Seq<MemoryRegion>) -> bool {
    forall|a: int, b: int|
        0 <= a < b < regions.len() ==> regions[a].end <= regions[b].start
}

/// When the region list is ordered, the frames come out in strictly
/// increasing address order.
pub proof fn lemma_frames_sorted(regions: Seq<MemoryRegion>, i: int)
    requires
        0 <= i,
        spec_regions_ordered(regions),
    ensures
        forall|a: int, b: int|
            0 <= a < b < spec_frames_of_regions(regions, i).len() ==> spec_frames_of_regions(
                regions,
                i,
            )[a] < spec_frames_of_regions(regions, i)[b],
    decreases regions.len() - i
{
    lemma_frames_in_usable_regions(regions, i);
    if i < regions.len() {
        lemma_frames_sorted(regions, i + 1);
        let head = if spec_usable(regions[i]) {
            spec_frames_from(regions[i].end as int, spec_align_up(regions[i].start as int))
        } else {
            Seq::<u64>::empty()
        };
        let tail = spec_frames_of_regions(regions, i + 1);
        if spec_usable(regions[i]) {
            lemma_align_up(regions[i].start as int);
            lemma_frames_from_bounds(regions[i].end as int, spec_align_up(regions[i].start as int));
        }
        lemma_frames_in_usable_regions(regions, i + 1);
        assert forall|a: int, b: int|
            0 <= a < b < (head + tail).len() implies (head + tail)[a] < (head + tail)[b] by {
            if b < head.len() {
            } else if a >= head.len() {
                assert((head + tail)[a] == tail[a - head.len()]);
                assert((head + tail)[b] == tail[b - head.len()]);
            } else {
                // a frame of this region against a frame of a later one
                let ga = head[a] as int;
                let gb = tail[b - head.len()] as int;
                assert(spec_in_some_usable_region(regions, i + 1, tail[b - head.len()]));
                let j = choose|j: int|
                    i + 1 <= j < regions.len() && spec_usable(regions[j]) && regions[j].start <= gb
                        && gb + PAGE_SIZE <= regions[j].end;
                assert(regions[i].end <= regions[j].start);
                assert(ga + PAGE_SIZE <= regions[i].end);
            }
        }
    }
}

} // verus!
