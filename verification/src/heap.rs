//! The kernel heap: bootstrap of the mapped range and the allocation
//! arena over it.
//!
//! `init_heap` draws one physical frame per page of the fixed virtual heap
//! range from the frame allocator; installing the present-and-writable
//! mappings in the page tables is a hardware step performed outside this
//! crate, which receives the planned frame list. The arena itself is a
//! first-fit allocator over the byte range: allocated blocks are kept as a
//! sorted, disjoint list of (offset, length) pairs, and the used-byte
//! count is a queryable derived statistic.

use vstd::prelude::*;
use crate::allocator::BootInfoFrameAllocator;
use crate::text::push_u64_decimal;
use crate::text::spec_decimal;

verus! {

/// Base virtual address of the heap.
pub const HEAP_START: u64 = 0x4444_4444_0000;

/// Size of the heap in bytes.
pub const HEAP_SIZE: usize = 1000 * 1024;  // 1000 KiB

/// Number of pages spanning the heap range.
pub const HEAP_PAGES: usize = HEAP_SIZE / 4096;

/// The sum of the lengths of a list of blocks.
pub open spec fn spec_blocks_sum(s: Seq<(usize, usize)>) -> int
    decreases s.len(),
{
    if s.len() == 0 {
        0
    } else {
        s[0].1 + spec_blocks_sum(s.drop_first())
    }
}

/// Blocks in ascending offset order, pairwise disjoint, each non-empty,
/// each inside the arena, and each at or after `pos`.
pub open spec fn spec_blocks_wf(s: Seq<(usize, usize)>, pos: int, size: int) -> bool {
    &&& (forall|i: int| 0 <= i < s.len() ==> 0 < (#[trigger] s[i]).1)
    &&& (forall|i: int| 0 <= i < s.len() ==> (#[trigger] s[i]).0 + s[i].1 <= size)
    &&& (forall|i: int| 0 <= i < s.len() - 1 ==> (#[trigger] s[i]).0 + s[i].1 <= s[i + 1].0)
    &&& (s.len() > 0 ==> pos <= s[0].0)
    &&& pos <= size
}

/// Where a first-fit scan places a request of `len` bytes: before the
/// first block that leaves enough room, else in the gap after the last
/// block, else nowhere.
pub open spec fn spec_first_fit(s: Seq<(usize, usize)>, pos: int, len: int, size: int) -> Option<
    int,
>
    decreases s.len(),
{
    if s.len() == 0 {
        if pos + len <= size {
            Some(pos)
        } else {
            None
        }
    } else if pos + len <= s[0].0 {
        Some(pos)
    } else {
        spec_first_fit(s.drop_first(), s[0].0 + s[0].1, len, size)
    }
}

/// A found placement leaves the whole arena consistent: the new block fits
/// with everything already placed, so the used bytes never exceed the
/// arena size.
pub proof fn lemma_first_fit_fits(s: Seq<(usize, usize)>, pos: int, len: int, size: int)
    requires
        spec_blocks_wf(s, pos, size),
        0 < len,
        spec_first_fit(s, pos, len, size) is Some,
    ensures
        pos + spec_blocks_sum(s) + len <= size,
        pos <= spec_first_fit(s, pos, len, size)->0,
    decreases s.len(),
{
    lemma_blocks_sum_nonneg(s);
    if s.len() == 0 {
    } else if pos + len <= s[0].0 {
        assert(spec_blocks_wf(s.drop_first(), s[0].0 + s[0].1, size)) by {
            assert(forall|i: int|
                0 <= i < s.drop_first().len() ==> s.drop_first()[i] == s[i + 1]);
        }
        lemma_blocks_chain(s.drop_first(), s[0].0 + s[0].1, size);
        assert(spec_blocks_sum(s) == s[0].1 + spec_blocks_sum(s.drop_first()));
    } else {
        assert(spec_blocks_wf(s.drop_first(), s[0].0 + s[0].1, size)) by {
            assert(forall|i: int|
                0 <= i < s.drop_first().len() ==> s.drop_first()[i] == s[i + 1]);
        }
        lemma_first_fit_fits(s.drop_first(), s[0].0 + s[0].1, len, size);
    }
}

/// The lengths of well-formed blocks all fit between `pos` and the end of
/// the arena.
pub proof fn lemma_blocks_chain(s: Seq<(usize, usize)>, pos: int, size: int)
    requires
        spec_blocks_wf(s, pos, size),
    ensures
        pos + spec_blocks_sum(s) <= size,
    decreases s.len(),
{
    if s.len() > 0 {
        assert(spec_blocks_wf(s.drop_first(), s[0].0 + s[0].1, size)) by {
            assert(forall|i: int|
                0 <= i < s.drop_first().len() ==> s.drop_first()[i] == s[i + 1]);
        }
        lemma_blocks_chain(s.drop_first(), s[0].0 + s[0].1, size);
    }
}

/// Block lengths are positive, so the sum never goes negative.
pub proof fn lemma_blocks_sum_nonneg(s: Seq<(usize, usize)>)
    ensures
        spec_blocks_sum(s) >= 0,
    decreases s.len(),
{
    if s.len() > 0 {
        lemma_blocks_sum_nonneg(s.drop_first());
    }
}

/// Inserting a block adds its length to the sum.
pub proof fn lemma_blocks_sum_insert(s: Seq<(usize, usize)>, k: int, b: (usize, usize))
    requires
        0 <= k <= s.len(),
    ensures
        spec_blocks_sum(s.insert(k, b)) == spec_blocks_sum(s) + b.1,
    decreases s.len(),
{
    if k == 0 {
        assert(s.insert(0, b).drop_first() =~= s);
    } else {
        assert(s.insert(k, b).drop_first() =~= s.drop_first().insert(k - 1, b));
        assert(s.insert(k, b)[0] == s[0]);
        lemma_blocks_sum_insert(s.drop_first(), k - 1, b);
    }
}

/// Removing a block subtracts its length from the sum.
pub proof fn lemma_blocks_sum_remove(s: Seq<(usize, usize)>, k: int)
    requires
        0 <= k < s.len(),
    ensures
        spec_blocks_sum(s.remove(k)) == spec_blocks_sum(s) - s[k].1,
    decreases s.len(),
{
    if k == 0 {
        assert(s.remove(0) =~= s.drop_first());
    } else {
        assert(s.remove(k).drop_first() =~= s.drop_first().remove(k - 1));
        assert(s.remove(k)[0] == s[0]);
        lemma_blocks_sum_remove(s.drop_first(), k - 1);
    }
}

/// Removing a block keeps the list sorted, disjoint and in range.
pub proof fn lemma_blocks_wf_remove(s: Seq<(usize, usize)>, k: int, size: int)
    requires
        spec_blocks_wf(s, 0, size),
        0 <= k < s.len(),
    ensures
        spec_blocks_wf(s.remove(k), 0, size),
{
    let t = s.remove(k);
    assert(forall|j: int| 0 <= j < k ==> t[j] == s[j]);
    assert(forall|j: int| k <= j < t.len() ==> t[j] == s[j + 1]);
    assert forall|j: int| 0 <= j < t.len() - 1 implies (#[trigger] t[j]).0 + t[j].1 <= t[j
        + 1].0 by {
        if j == k - 1 {
            assert(s[k - 1].0 + s[k - 1].1 <= s[k].0);
            assert(s[k].0 + s[k].1 <= s[k + 1].0);
        }
    }
}

/// The heap arena: a byte range of fixed size with a sorted list of
/// allocated blocks and the derived used-byte count.
pub struct HeapArena {
    size: usize,
    blocks: Vec<(usize, usize)>,
    used: usize,
}

impl HeapArena {
    /// The allocated blocks, sorted by offset.
    pub closed spec fn blocks(&self) -> Seq<(usize, usize)> {
        self.blocks@
    }

    /// The size of the arena in bytes.
    pub closed spec fn size(&self) -> int {
        self.size as int
    }

    /// The bytes currently allocated.
    pub closed spec fn used_bytes(&self) -> int {
        self.used as int
    }

    /// Blocks sorted, disjoint and in range; the used count is their sum.
    pub open spec fn wf(&self) -> bool {
        &&& spec_blocks_wf(self.blocks(), 0, self.size())
        &&& self.used_bytes() == spec_blocks_sum(self.blocks())
    }

    /// An empty arena over `size` bytes.
    pub fn new(size: usize) -> (a: HeapArena)
        ensures
            a.wf(),
            a.size() == size,
            a.used_bytes() == 0,
            a.blocks() == Seq::<(usize, usize)>::empty(),
    {
        HeapArena { size, blocks: Vec::new(), used: 0 }
    }

    /// The size of the arena.
    pub fn size_bytes(&self) -> (n: usize)
        ensures
            n == self.size(),
    {
        self.size
    }

    /// The bytes currently allocated.
    pub fn used(&self) -> (n: usize)
        ensures
            n == self.used_bytes(),
    {
        self.used
    }

    /// Allocate `len` bytes first-fit. Returns the offset of the placed
    /// block, or `None` exactly when no gap holds `len` bytes; in
    /// particular a request larger than the free bytes always fails, and
    /// the used count grows by exactly `len` on success.
    pub fn allocate(&mut self, len: usize) -> (r: Option<usize>)
        requires
            old(self).wf(),
            0 < len,
        ensures
            final(self).wf(),
            final(self).size() == old(self).size(),
            match spec_first_fit(old(self).blocks(), 0, len as int, old(self).size()) {
                Some(off) => {
                    &&& r == Some(off as usize)
                    &&& final(self).used_bytes() == old(self).used_bytes() + len
                    &&& exists|k: int|
                        0 <= k <= old(self).blocks().len() && final(self).blocks() == #[trigger] old(
                            self,
                        ).blocks().insert(k, (off as usize, len))
                },
                None => {
                    &&& r is None
                    &&& final(self).blocks() == old(self).blocks()
                    &&& final(self).used_bytes() == old(self).used_bytes()
                },
            },
    {
        let ghost all = self.blocks@;
        let ghost size = self.size as int;
        let mut i: usize = 0;
        let mut pos: usize = 0;
        proof {
            assert(all.skip(0) =~= all);
        }
        loop
            invariant
                self.wf(),
                self == old(self),
                all == self.blocks@,
                size == self.size as int,
                0 < len,
                i <= all.len(),
                i == 0 ==> pos == 0,
                i > 0 ==> pos == all[i - 1].0 + all[i - 1].1,
                spec_blocks_wf(all.skip(i as int), pos as int, size),
                spec_first_fit(all, 0, len as int, size) == spec_first_fit(
                    all.skip(i as int),
                    pos as int,
                    len as int,
                    size,
                ),
            decreases all.len() - i,
        {
            proof {
                if i < all.len() {
                    assert(all.skip(i as int)[0] == all[i as int]);
                    assert(forall|j: int|
                        0 <= j < all.skip(i as int).len() ==> all.skip(i as int)[j] == all[i + j]);
                }
            }
            if i == self.blocks.len() {
                if len <= self.size - pos {
                    proof {
                        lemma_first_fit_fits(all, 0, len as int, size);
                        lemma_blocks_sum_insert(all, all.len() as int, (pos, len));
                        lemma_blocks_chain(all, 0, size);
                    }
                    self.blocks.push((pos, len));
                    self.used = self.used + len;
                    proof {
                        assert(self.blocks@ =~= all.insert(all.len() as int, (pos, len)));
                        assert(spec_blocks_wf(self.blocks@, 0, size)) by {
                            assert(forall|j: int|
                                0 <= j < all.len() ==> self.blocks@[j] == all[j]);
                            assert(self.blocks@[all.len() as int] == (pos, len));
                            if all.len() > 0 {
                                assert(all[all.len() - 1].0 + all[all.len() - 1].1 == pos);
                            }
                        }
                    }
                    return Some(pos);
                } else {
                    return None;
                }
            }
            let (b_off, b_len) = self.blocks[i];
            if len <= b_off - pos {
                // the request fits in the gap before this block
                proof {
                    lemma_first_fit_fits(all, 0, len as int, size);
                    lemma_blocks_sum_insert(all, i as int, (pos, len));
                    lemma_blocks_chain(all.skip(i as int), pos as int, size);
                }
                self.blocks.insert(i, (pos, len));
                self.used = self.used + len;
                proof {
                    assert(self.blocks@ =~= all.insert(i as int, (pos, len)));
                    assert(spec_blocks_wf(self.blocks@, 0, size)) by {
                        assert(forall|j: int| 0 <= j < i ==> self.blocks@[j] == all[j]);
                        assert(self.blocks@[i as int] == (pos, len));
                        assert(forall|j: int|
                            i < j < self.blocks@.len() ==> self.blocks@[j] == all[j - 1]);
                        if i > 0 {
                            assert(all[i - 1].0 + all[i - 1].1 == pos);
                        }
                    }
                }
                return Some(pos);
            }
            proof {
                assert(all.skip(i as int).drop_first() =~= all.skip(i + 1));
            }
            pos = b_off + b_len;
            i = i + 1;
        }
    }

    /// Free the block placed at `offset`. Returns the freed length, or
    /// `None` exactly when no block starts there; the used count shrinks
    /// by the freed length.
    pub fn free(&mut self, offset: usize) -> (r: Option<usize>)
        requires
            old(self).wf(),
        ensures
            final(self).wf(),
            final(self).size() == old(self).size(),
            match spec_block_index(old(self).blocks(), offset as int) {
                Some(k) => {
                    &&& r == Some(old(self).blocks()[k].1)
                    &&& final(self).blocks() == old(self).blocks().remove(k)
                    &&& final(self).used_bytes() == old(self).used_bytes() - old(
                        self,
                    ).blocks()[k].1
                },
                None => {
                    &&& r is None
                    &&& final(self).blocks() == old(self).blocks()
                    &&& final(self).used_bytes() == old(self).used_bytes()
                },
            },
    {
        let ghost all = self.blocks@;
        let ghost size = self.size as int;
        let mut i: usize = 0;
        while i < self.blocks.len()
            invariant
                self.wf(),
                self == old(self),
                all == self.blocks@,
                size == self.size as int,
                i <= all.len(),
                forall|j: int| 0 <= j < i ==> (#[trigger] all[j]).0 != offset,
                spec_block_index(all, offset as int) == spec_block_index_from(
                    all,
                    offset as int,
                    i as int,
                ),
            decreases all.len() - i,
        {
            let (b_off, b_len) = self.blocks[i];
            if b_off == offset {
                proof {
                    lemma_blocks_sum_remove(all, i as int);
                    lemma_blocks_sum_nonneg(all.remove(i as int));
                    lemma_blocks_wf_remove(all, i as int, size);
                }
                self.blocks.remove(i);
                self.used = self.used - b_len;
                proof {
                    assert(self.blocks@ =~= all.remove(i as int));
                }
                return Some(b_len);
            }
            i = i + 1;
        }
        None
    }
}

/// Undoing an insertion restores the block list exactly.
pub proof fn lemma_insert_remove(s: Seq<(usize, usize)>, k: int, b: (usize, usize))
    requires
        0 <= k <= s.len(),
    ensures
        s.insert(k, b).remove(k) =~= s,
{
}

/// Allocating, freeing the placed block, then allocating the same size
/// again: the second request is placed at the same offset as the first,
/// and the used bytes return to their first value — the total used bytes
/// never grow past the arena size.
pub proof fn lemma_alloc_free_alloc(s: Seq<(usize, usize)>, k: int, len: int, size: int)
    requires
        spec_blocks_wf(s, 0, size),
        0 < len,
        spec_first_fit(s, 0, len, size) is Some,
        0 <= k <= s.len(),
    ensures
        ({
            let off = spec_first_fit(s, 0, len, size)->0;
            let after = s.insert(k, (off as usize, len as usize)).remove(k);
            &&& after == s
            &&& spec_first_fit(after, 0, len, size) == spec_first_fit(s, 0, len, size)
            &&& spec_blocks_sum(after) == spec_blocks_sum(s)
            &&& spec_blocks_sum(s) + len <= size
        }),
{
    let off = spec_first_fit(s, 0, len, size)->0;
    lemma_insert_remove(s, k, (off as usize, len as usize));
    lemma_first_fit_fits(s, 0, len, size);
}

/// A request larger than the free bytes of the arena always fails, and
/// fails deterministically: the first-fit scan finds no gap.
pub proof fn lemma_alloc_exceeding_free_fails(s: Seq<(usize, usize)>, len: int, size: int)
    requires
        spec_blocks_wf(s, 0, size),
        0 < len,
        spec_blocks_sum(s) + len > size,
    ensures
        spec_first_fit(s, 0, len, size) is None,
{
    if spec_first_fit(s, 0, len, size) is Some {
        lemma_first_fit_fits(s, 0, len, size);
    }
}

/// Why the heap bootstrap failed: the frame allocator ran out of frames
/// before the whole range was mapped. The kernel cannot run without its
/// heap, so this is surfaced, not retried.
#[derive(Clone, Copy, Debug, PartialEq, Eq, Structural)]
pub enum HeapInitError {
    FrameExhausted,
}

/// The virtual address of the `i`-th page of the heap range.
pub fn heap_page_address(i: usize) -> (a: u64)
    requires
        i < HEAP_PAGES,
    ensures
        a == HEAP_START + i * 4096,
{
    HEAP_START + (i as u64) * 4096
}

/// Plan the heap bootstrap: draw one frame per page of the heap range
/// from the frame allocator, and hand back the frame for each page
/// together with the empty arena over the range. Fails exactly when the
/// allocator cannot supply a frame for every page; the failure is
/// unrecoverable and surfaced to the caller.
pub fn init_heap(frame_allocator: &mut BootInfoFrameAllocator) -> (r: Result<
    (Vec<u64>, HeapArena),
    HeapInitError,
>)
    requires
        old(frame_allocator).wf(),
    ensures
        final(frame_allocator).wf(),
        final(frame_allocator).regions() == old(frame_allocator).regions(),
        match r {
            Ok(p) => {
                &&& old(frame_allocator).remaining().len() >= HEAP_PAGES
                &&& p.0@ == old(frame_allocator).remaining().take(HEAP_PAGES as int)
                &&& final(frame_allocator).remaining() == old(frame_allocator).remaining().skip(
                    HEAP_PAGES as int,
                )
                &&& p.1.wf()
                &&& p.1.size() == HEAP_SIZE
                &&& p.1.used_bytes() == 0
            },
            Err(e) => {
                &&& old(frame_allocator).remaining().len() < HEAP_PAGES
                &&& e == HeapInitError::FrameExhausted
                &&& final(frame_allocator).remaining() == Seq::<u64>::empty()
            },
        },
{
    let mut frames: Vec<u64> = Vec::new();
    let mut i: usize = 0;
    let ghost rem = old(frame_allocator).remaining();
    proof {
        assert(rem.take(0) =~= Seq::<u64>::empty());
        assert(rem.skip(0) =~= rem);
    }
    while i < HEAP_PAGES
        invariant
            i <= HEAP_PAGES,
            frames@.len() == i,
            i <= rem.len(),
            frame_allocator.wf(),
            rem == old(frame_allocator).remaining(),
            frame_allocator.regions() == old(frame_allocator).regions(),
            frames@ == rem.take(i as int),
            frame_allocator.remaining() == rem.skip(i as int),
        decreases HEAP_PAGES - i,
    {
        let ghost pre = frame_allocator.remaining();
        match frame_allocator.allocate_frame() {
            Some(frame) => {
                proof {
                    vstd::seq_lib::lemma_seq_skip_len(rem, i as int);
                    assert(pre.len() > 0);
                    vstd::seq_lib::lemma_seq_skip_index(rem, i as int, 0);
                    assert(frame == rem[i as int]);
                    assert forall|j: int|
                        0 <= j < pre.drop_first().len() implies pre.drop_first()[j] == rem.skip(
                        i + 1,
                    )[j] by {
                        vstd::seq_lib::lemma_seq_skip_index(rem, i as int, j + 1);
                        vstd::seq_lib::lemma_seq_skip_index(rem, i + 1, j);
                    }
                    assert(pre.drop_first() =~= rem.skip(i + 1));
                    assert forall|j: int| 0 <= j < i + 1 implies rem.take(i as int).push(
                        rem[i as int],
                    )[j] == rem.take(i + 1)[j] by {
                        vstd::seq_lib::lemma_seq_take_index(rem, i as int, j);
                        vstd::seq_lib::lemma_seq_take_index(rem, i + 1, j);
                    }
                    assert(rem.take(i as int).push(rem[i as int]) =~= rem.take(i + 1));
                }
                frames.push(frame);
            },
            None => {
                proof {
                    vstd::seq_lib::lemma_seq_skip_len(rem, i as int);
                    assert(pre.len() == 0);
                    assert(rem.len() == i);
                }
                return Err(HeapInitError::FrameExhausted);
            },
        }
        i = i + 1;
    }
    Ok((frames, HeapArena::new(HEAP_SIZE)))
}

/// The total heap size in bytes.
pub fn heap_size() -> (n: usize)
    ensures
        n == HEAP_SIZE,
{
    HEAP_SIZE
}

/// The bytes currently allocated from the arena.
pub fn heap_used(arena: &HeapArena) -> (n: usize)
    ensures
        n == arena.used_bytes(),
{
    arena.used()
}

/// The bytes still free in the arena.
pub fn heap_free(arena: &HeapArena) -> (n: usize)
    requires
        arena.wf(),
        arena.size() == HEAP_SIZE,
    ensures
        n == HEAP_SIZE - arena.used_bytes(),
{
    proof {
        lemma_blocks_chain(arena.blocks(), 0, arena.size());
        lemma_blocks_sum_nonneg(arena.blocks());
    }
    heap_size() - heap_used(arena)
}

/// The heap summary line: used and total, in whole KiB.
pub open spec fn spec_heap_stat(used: int, size: int) -> Seq<char> {
    "Heap: "@ + spec_decimal(used / 1024) + " / "@ + spec_decimal(size / 1024) + " KiB"@
}

/// Format the heap summary, as the shell's stats view shows it.
pub fn heap_stat(arena: &HeapArena) -> (s: String)
    requires
        arena.wf(),
        arena.size() == HEAP_SIZE,
    ensures
        s@ == spec_heap_stat(arena.used_bytes(), HEAP_SIZE as int),
{
    let used_kib = heap_used(arena) / 1024;
    let total_kib = heap_size() / 1024;
    let mut s = String::from_str("Heap: ");
    push_u64_decimal(&mut s, used_kib as u64);
    s.append(" / ");
    push_u64_decimal(&mut s, total_kib as u64);
    s.append(" KiB");
    s
}

/// The position of the block starting at `offset` in a block list, if any.
pub open spec fn spec_block_index(s: Seq<(usize, usize)>, offset: int) -> Option<int> {
    spec_block_index_from(s, offset, 0)
}

/// The position of the block starting at `offset`, searching from `i`.
pub open spec fn spec_block_index_from(s: Seq<(usize, usize)>, offset: int, i: int) -> Option<int>
    decreases s.len() - i when 0 <= i <= s.len()
{
    if i >= s.len() {
        None
    } else if s[i].0 == offset {
        Some(i)
    } else {
        spec_block_index_from(s, offset, i + 1)
    }
}

} // verus!
