//! Physical frame allocator: one bit per page frame below a fixed ceiling,
//! bit set meaning allocated, bit clear meaning free, with a scan cursor
//! that makes the common boot-time pattern of monotonic allocation cheap.

use vstd::prelude::*;
use vstd::arithmetic::div_mod::lemma_fundamental_div_mod;
use crate::bootinfo::BootInfo;
use crate::mem::{MemoryMapEntry, MemoryType, PAGE_SIZE, page_align_down, page_align_up};

verus! {

/// Number of page frames the allocator tracks: everything below the 4 GiB
/// physical ceiling at 4 KiB per frame.
pub const MAX_PAGES: usize = 0x100000;

/// One bit per page frame.
pub const BITMAP_SIZE: usize = MAX_PAGES / 8;

/// Whether the bitmap bit of frame `p` is clear, that is, the frame is free.
pub open spec fn bit_is_free(bm: Seq<u8>, p: int) -> bool {
    (bm[p / 8] >> ((p % 8) as u8)) & 1 == 0
}

/// Number of free frames among the frames `0 .. n`.
pub open spec fn count_free(bm: Seq<u8>, n: int) -> int
    decreases n,
{
    if n <= 0 {
        0
    } else {
        count_free(bm, n - 1) + if bit_is_free(bm, n - 1) {
            1int
        } else {
            0int
        }
    }
}

proof fn lemma_u8_bit_test(b: u8, k: u8)
    by (bit_vector)
    requires
        k < 8,
    ensures
        ((b & (1u8 << k)) != 0) == (((b >> k) & 1) == 1),
        ((b >> k) & 1 == 0) || ((b >> k) & 1 == 1),
{
}

proof fn lemma_u8_clear_bit(b: u8, i: u8, j: u8)
    by (bit_vector)
    requires
        i < 8,
        j < 8,
    ensures
        ((b & !(1u8 << i)) >> i) & 1 == 0,
        i != j ==> ((b & !(1u8 << i)) >> j) & 1 == (b >> j) & 1,
{
}

proof fn lemma_u8_set_bit(b: u8, i: u8, j: u8)
    by (bit_vector)
    requires
        i < 8,
        j < 8,
    ensures
        ((b | (1u8 << i)) >> i) & 1 == 1,
        i != j ==> ((b | (1u8 << i)) >> j) & 1 == (b >> j) & 1,
{
}

proof fn lemma_count_free_pointwise(bm1: Seq<u8>, bm2: Seq<u8>, n: int)
    requires
        forall|k: int| 0 <= k < n ==> bit_is_free(bm1, k) == bit_is_free(bm2, k),
    ensures
        count_free(bm1, n) == count_free(bm2, n),
    decreases n,
{
    if n > 0 {
        lemma_count_free_pointwise(bm1, bm2, n - 1);
    }
}

/// Flipping the one bit `p` changes the count over any range that covers `p`
/// by exactly one, in the direction of the flip.
proof fn lemma_count_free_flip(bm1: Seq<u8>, bm2: Seq<u8>, p: int, n: int)
    requires
        0 <= p < n,
        forall|k: int| 0 <= k < n && k != p ==> bit_is_free(bm1, k) == bit_is_free(bm2, k),
    ensures
        count_free(bm2, n) == count_free(bm1, n) + (if bit_is_free(bm2, p) && !bit_is_free(
            bm1,
            p,
        ) {
            1int
        } else if !bit_is_free(bm2, p) && bit_is_free(bm1, p) {
            -1int
        } else {
            0int
        }),
    decreases n,
{
    if p == n - 1 {
        lemma_count_free_pointwise(bm1, bm2, n - 1);
    } else {
        lemma_count_free_flip(bm1, bm2, p, n - 1);
    }
}

proof fn lemma_count_free_extend(bm: Seq<u8>, n: int, m: int)
    requires
        0 <= n <= m,
        forall|k: int| n <= k < m ==> !bit_is_free(bm, k),
    ensures
        count_free(bm, m) == count_free(bm, n),
    decreases m,
{
    if m > n {
        lemma_count_free_extend(bm, n, m - 1);
    }
}

proof fn lemma_count_free_bounds(bm: Seq<u8>, n: int)
    requires
        n >= 0,
    ensures
        0 <= count_free(bm, n) <= n,
    decreases n,
{
    if n > 0 {
        lemma_count_free_bounds(bm, n - 1);
    }
}

proof fn lemma_count_free_at_least_one(bm: Seq<u8>, p: int, n: int)
    requires
        0 <= p < n,
        bit_is_free(bm, p),
    ensures
        count_free(bm, n) >= 1,
    decreases n,
{
    if p == n - 1 {
        lemma_count_free_bounds(bm, n - 1);
    } else {
        lemma_count_free_at_least_one(bm, p, n - 1);
    }
}

proof fn lemma_count_free_none(bm: Seq<u8>, n: int)
    requires
        forall|k: int| 0 <= k < n ==> !bit_is_free(bm, k),
    ensures
        count_free(bm, n) == 0,
    decreases n,
{
    if n > 0 {
        lemma_count_free_none(bm, n - 1);
    }
}

/// Whether the memory-map record `e` makes frame `p` available: the record
/// is tagged `Available` and fully contains the frame after rounding the
/// record's start up and its end down to page boundaries.
pub open spec fn entry_covers(e: MemoryMapEntry, p: int) -> bool {
    &&& e.mem_type == MemoryType::Available
    &&& 0 <= p < MAX_PAGES
    &&& p * (PAGE_SIZE as int) >= e.base
    &&& (p + 1) * (PAGE_SIZE as int) <= e.base + e.length
}

/// Whether one of the first `k` records of the memory map covers frame `p`.
pub open spec fn covered_upto(mm: Seq<MemoryMapEntry>, k: int, p: int) -> bool
    decreases k,
{
    if k <= 0 {
        false
    } else {
        covered_upto(mm, k - 1, p) || entry_covers(mm[k - 1], p)
    }
}

/// Whether some record of the memory map makes frame `p` available.
pub open spec fn covered(mm: Seq<MemoryMapEntry>, p: int) -> bool {
    covered_upto(mm, mm.len() as int, p)
}

/// Number of free frames among the frames `0 .. n`, counted over the
/// public per-frame view: the abstraction `num_free` is tied to.
pub open spec fn free_frames_below(fa: FrameAllocator, n: int) -> int
    decreases n,
{
    if n <= 0 {
        0
    } else {
        free_frames_below(fa, n - 1) + if fa.page_is_free(n - 1) {
            1int
        } else {
            0int
        }
    }
}

pub proof fn lemma_free_frames_below_nonneg(fa: FrameAllocator, n: int)
    ensures
        free_frames_below(fa, n) >= 0,
    decreases n,
{
    if n > 0 {
        lemma_free_frames_below_nonneg(fa, n - 1);
    }
}

pub proof fn lemma_free_frames_below_monotone(fa: FrameAllocator, a: int, b: int)
    requires
        a <= b,
    ensures
        free_frames_below(fa, a) <= free_frames_below(fa, b),
    decreases b - a,
{
    if a < b {
        lemma_free_frames_below_monotone(fa, a, b - 1);
    }
}

/// Number of frames among `0 .. n` that the memory map makes available:
/// what the free pool holds right after `init`.
pub open spec fn covered_count_below(mm: Seq<MemoryMapEntry>, n: int) -> int
    decreases n,
{
    if n <= 0 {
        0
    } else {
        covered_count_below(mm, n - 1) + if covered(mm, n - 1) {
            1int
        } else {
            0int
        }
    }
}

/// Where the free frames are exactly the covered ones, the two counts
/// agree.
pub proof fn lemma_covered_count_matches(fa: FrameAllocator, mm: Seq<MemoryMapEntry>, n: int)
    requires
        forall|p: int| 0 <= p < n ==> (fa.page_is_free(p) <==> covered(mm, p)),
    ensures
        free_frames_below(fa, n) == covered_count_below(mm, n),
    decreases n,
{
    if n > 0 {
        lemma_covered_count_matches(fa, mm, n - 1);
    }
}

/// Frames that are all allocated add nothing to the count.
pub proof fn lemma_free_frames_below_extend(fa: FrameAllocator, a: int, b: int)
    requires
        0 <= a <= b,
        forall|p: int| a <= p < b ==> !fa.page_is_free(p),
    ensures
        free_frames_below(fa, b) == free_frames_below(fa, a),
    decreases b - a,
{
    if a < b {
        lemma_free_frames_below_extend(fa, a, b - 1);
    }
}

/// Number of frames among `start .. start + k` below the ceiling that
/// read allocated in `fa`: what a release of that range actually frees.
pub open spec fn freed_in_range(fa: FrameAllocator, start: int, k: int) -> int
    decreases k,
{
    if k <= 0 {
        0
    } else {
        freed_in_range(fa, start, k - 1) + if 0 <= start + (k - 1) < MAX_PAGES && !fa.page_is_free(
            start + (k - 1),
        ) {
            1int
        } else {
            0int
        }
    }
}

/// A run of `n` free frames contributes `n` to any count that covers it.
pub proof fn lemma_run_bounds_count(fa: FrameAllocator, start: int, n: int)
    requires
        fa.wf(),
        0 <= start,
        start + n <= fa.num_total(),
        fa.run_is_free(start, n),
    ensures
        fa.num_free() >= n,
    decreases n,
{
    if n <= 0 {
        fa.lemma_counts_nonneg();
    } else {
        lemma_free_frames_segment(fa, start, n);
        lemma_free_frames_below_nonneg(fa, start);
        lemma_free_frames_below_monotone(fa, start + n, fa.num_total());
        fa.lemma_free_count_exact();
    }
}

proof fn lemma_free_frames_segment(fa: FrameAllocator, start: int, n: int)
    requires
        0 <= start,
        n >= 0,
        fa.run_is_free(start, n),
    ensures
        free_frames_below(fa, start + n) >= free_frames_below(fa, start) + n,
    decreases n,
{
    if n > 0 {
        assert(fa.page_is_free(start + n - 1));
        lemma_free_frames_segment(fa, start, n - 1);
    }
}

/// The frame allocator allocates and deallocates physical memory frames.
/// It tracks one bit per frame: bit set means allocated or out of range,
/// bit clear means free. `first_free` is a scan hint, not a source of
/// truth: a stale hint costs extra scanning, never a wrong answer.
pub struct FrameAllocator {
    bitmap: Vec<u8>,
    first_free: usize,
    total_pages: usize,
    free_pages: usize,
}

impl FrameAllocator {
    /// Whether frame `p` is currently free. Frames at or beyond the ceiling
    /// are never free.
    pub closed spec fn page_is_free(self, p: int) -> bool {
        0 <= p < MAX_PAGES && bit_is_free(self.bitmap@, p)
    }

    /// Number of frames recorded free.
    pub closed spec fn num_free(self) -> int {
        self.free_pages as int
    }

    /// Number of frames ever made available: one past the highest frame that
    /// was marked free. Frames beyond it are treated as permanently
    /// allocated.
    pub closed spec fn num_total(self) -> int {
        self.total_pages as int
    }

    /// The scan cursor: where the next allocation scan begins.
    pub closed spec fn cursor(self) -> int {
        self.first_free as int
    }

    /// A freshly constructed allocator: nothing available yet, everything
    /// reading as free bits but with a zero total, so nothing can be handed
    /// out until `init` runs.
    pub closed spec fn is_virgin(self) -> bool {
        self.total_pages == 0 && forall|p: int| 0 <= p < MAX_PAGES ==> bit_is_free(self.bitmap@, p)
    }

    /// Internal consistency: the free counter equals the number of clear
    /// bits below `total_pages`, the cursor never passes the total, and
    /// either every frame at or beyond the total reads allocated or the
    /// allocator is still untouched.
    pub closed spec fn wf(self) -> bool {
        &&& self.bitmap@.len() == BITMAP_SIZE
        &&& self.total_pages <= MAX_PAGES
        &&& self.first_free <= self.total_pages
        &&& self.free_pages == count_free(self.bitmap@, self.total_pages as int)
        &&& ((forall|p: int|
            self.total_pages <= p < MAX_PAGES ==> !bit_is_free(self.bitmap@, p))
            || self.is_virgin())
    }

    /// The counters are plain tallies: none of them can be negative.
    pub proof fn lemma_counts_nonneg(self)
        ensures
            self.num_free() >= 0,
            self.num_total() >= 0,
            self.cursor() >= 0,
    {
    }

    /// The free counter is exact: in every consistent state it equals the
    /// number of frames that read free, counted over the public per-frame
    /// view.
    pub proof fn lemma_free_count_exact(self)
        requires
            self.wf(),
        ensures
            self.num_free() == free_frames_below(self, self.num_total()),
    {
        self.lemma_bit_count_matches(self.num_total());
    }

    proof fn lemma_bit_count_matches(self, n: int)
        requires
            self.wf(),
            n <= self.num_total(),
        ensures
            count_free(self.bitmap@, n) == free_frames_below(self, n),
        decreases n,
    {
        if n > 0 {
            self.lemma_bit_count_matches(n - 1);
        }
    }

    /// The counters can never contradict each other: free never exceeds
    /// total, so `used = total - free` is well defined and
    /// `free + used == total` holds in every reachable state.
    pub proof fn lemma_counts_invariant(self)
        requires
            self.wf(),
        ensures
            0 <= self.num_free() <= self.num_total(),
            self.num_total() <= MAX_PAGES,
            self.num_free() + (self.num_total() - self.num_free()) == self.num_total(),
    {
        lemma_count_free_bounds(self.bitmap@, self.total_pages as int);
    }

    /// An empty allocator. Every frame is out of reach until `init` carves
    /// the available regions out of a memory map.
    pub fn new() -> (r: FrameAllocator)
        ensures
            r.wf(),
            r.is_virgin(),
            r.num_free() == 0,
            r.num_total() == 0,
            r.cursor() == 0,
    {
        let bitmap: Vec<u8> = vec![0u8; BITMAP_SIZE];
        let r = FrameAllocator { bitmap, first_free: 0, total_pages: 0, free_pages: 0 };
        proof {
            assert forall|p: int| 0 <= p < MAX_PAGES implies bit_is_free(r.bitmap@, p) by {
                assert(r.bitmap@[p / 8] == 0);
                let k: u8 = (p % 8) as u8;
                assert((0u8 >> k) & 1 == 0) by (bit_vector);
            }
        }
        r
    }

    /// Whether frame `page` is allocated; frames at or beyond the ceiling
    /// count as allocated, so out-of-range queries are answered defensively.
    pub fn is_allocated(&self, page: usize) -> (r: bool)
        requires
            self.wf(),
        ensures
            r == !self.page_is_free(page as int),
    {
        if page >= MAX_PAGES {
            return true;
        }
        let byte: usize = page / 8;
        let bit: u8 = (page % 8) as u8;
        proof {
            lemma_fundamental_div_mod(page as int, 8);
            lemma_u8_bit_test(self.bitmap@[byte as int], bit);
        }
        self.bitmap[byte] & (1u8 << bit) != 0
    }

    /// Clear the bit of `page`, making the frame free, and pull the total
    /// forward if the frame lies beyond it. Out-of-range or already-free
    /// frames are left untouched.
    pub fn mark_free(&mut self, page: usize)
        requires
            old(self).wf(),
        ensures
            final(self).wf(),
            page >= MAX_PAGES || old(self).page_is_free(page as int) ==> *final(self) == *old(
                self,
            ),
            page < MAX_PAGES && !old(self).page_is_free(page as int) ==> {
                &&& final(self).page_is_free(page as int)
                &&& forall|q: int|
                    q != page ==> #[trigger] final(self).page_is_free(q) == old(
                        self,
                    ).page_is_free(q)
                &&& final(self).num_free() == old(self).num_free() + 1
                &&& final(self).num_total() == (if old(self).num_total() >= page + 1 {
                    old(self).num_total()
                } else {
                    page + 1
                })
                &&& final(self).cursor() == old(self).cursor()
            },
    {
        if page >= MAX_PAGES {
            return ;
        }
        if !self.is_allocated(page) {
            return ;
        }
        let ghost pre = *self;
        let byte: usize = page / 8;
        let bit: u8 = (page % 8) as u8;
        proof {
            lemma_fundamental_div_mod(page as int, 8);
            lemma_count_free_bounds(pre.bitmap@, pre.total_pages as int);
        }
        self.bitmap[byte] = self.bitmap[byte] & !(1u8 << bit);
        self.free_pages = self.free_pages + 1;
        if self.total_pages < page + 1 {
            self.total_pages = page + 1;
        }
        proof {
            let bm0 = pre.bitmap@;
            let bm1 = self.bitmap@;
            let p = page as int;
            lemma_u8_clear_bit(bm0[byte as int], bit, bit);
            assert(bit_is_free(bm1, p));
            assert forall|q: int| 0 <= q < MAX_PAGES && q != p implies bit_is_free(bm1, q)
                == bit_is_free(bm0, q) by {
                lemma_fundamental_div_mod(q, 8);
                if q / 8 == byte as int {
                    lemma_u8_clear_bit(bm0[byte as int], bit, (q % 8) as u8);
                } else {
                    assert(bm1[q / 8] == bm0[q / 8]);
                }
            }
            // The allocator cannot still be untouched: `page` read allocated.
            assert(!pre.is_virgin());
            let t0 = pre.total_pages as int;
            let t1 = self.total_pages as int;
            if p < t0 {
                lemma_count_free_flip(bm0, bm1, p, t0);
            } else {
                lemma_count_free_pointwise(bm0, bm1, t0);
                lemma_count_free_extend(bm1, t0, p);
                assert(count_free(bm1, p + 1) == count_free(bm1, p) + 1);
            }
        }
    }

    /// Set the bit of `page`, taking the frame out of the free pool.
    /// Out-of-range or already-allocated frames are left untouched. A free
    /// frame may only be claimed below the tracked total, which is where
    /// every free frame of an initialized allocator lies.
    pub fn mark_allocated(&mut self, page: usize)
        requires
            old(self).wf(),
            old(self).page_is_free(page as int) ==> page < old(self).num_total(),
        ensures
            final(self).wf(),
            page >= MAX_PAGES || !old(self).page_is_free(page as int) ==> *final(self) == *old(
                self,
            ),
            page < MAX_PAGES && old(self).page_is_free(page as int) ==> {
                &&& !final(self).page_is_free(page as int)
                &&& forall|q: int|
                    q != page ==> #[trigger] final(self).page_is_free(q) == old(
                        self,
                    ).page_is_free(q)
                &&& final(self).num_free() == old(self).num_free() - 1
                &&& final(self).num_total() == old(self).num_total()
                &&& final(self).cursor() == old(self).cursor()
            },
    {
        if page >= MAX_PAGES {
            return ;
        }
        if self.is_allocated(page) {
            return ;
        }
        let ghost pre = *self;
        let byte: usize = page / 8;
        let bit: u8 = (page % 8) as u8;
        proof {
            lemma_fundamental_div_mod(page as int, 8);
            lemma_count_free_at_least_one(pre.bitmap@, page as int, pre.total_pages as int);
        }
        self.bitmap[byte] = self.bitmap[byte] | (1u8 << bit);
        self.free_pages = self.free_pages - 1;
        proof {
            let bm0 = pre.bitmap@;
            let bm1 = self.bitmap@;
            let p = page as int;
            lemma_u8_set_bit(bm0[byte as int], bit, bit);
            assert(!bit_is_free(bm1, p));
            assert forall|q: int| 0 <= q < MAX_PAGES && q != p implies bit_is_free(bm1, q)
                == bit_is_free(bm0, q) by {
                lemma_fundamental_div_mod(q, 8);
                if q / 8 == byte as int {
                    lemma_u8_set_bit(bm0[byte as int], bit, (q % 8) as u8);
                } else {
                    assert(bm1[q / 8] == bm0[q / 8]);
                }
            }
            let t0 = pre.total_pages as int;
            lemma_count_free_flip(bm0, bm1, p, t0);
            if !pre.is_virgin() {
                assert forall|q: int| t0 <= q < MAX_PAGES implies !bit_is_free(bm1, q) by {}
            }
        }
    }

    /// What `alloc` does: on success the scan's first free frame is handed
    /// out by its byte address and marked allocated, the cursor moves just
    /// past it, and nothing else changes; the empty return happens exactly
    /// when no frame is free.
    pub open spec fn alloc_spec(pre: FrameAllocator, post: FrameAllocator, r: Option<u64>) -> bool {
        &&& post.wf()
        &&& match r {
            Option::None => post == pre && pre.num_free() == 0,
            Option::Some(addr) => {
                let p = addr as int / (PAGE_SIZE as int);
                &&& addr == p * (PAGE_SIZE as int)
                &&& pre.num_free() > 0
                &&& 0 <= p < pre.num_total()
                &&& pre.page_is_free(p)
                &&& !post.page_is_free(p)
                &&& forall|q: int|
                    q != p ==> #[trigger] post.page_is_free(q) == pre.page_is_free(q)
                &&& post.num_free() == pre.num_free() - 1
                &&& post.num_total() == pre.num_total()
                &&& post.cursor() == p + 1
                &&& ((pre.cursor() <= p && forall|q: int|
                    pre.cursor() <= q < p ==> !pre.page_is_free(q)) || (p < pre.cursor() && (
                forall|q: int| pre.cursor() <= q < pre.num_total() ==> !pre.page_is_free(q))
                    && forall|q: int| 0 <= q < p ==> !pre.page_is_free(q)))
            },
        }
    }

    /// Find the first free frame in `lo .. hi`, scanning upward.
    fn scan_free(&self, lo: usize, hi: usize) -> (r: Option<usize>)
        requires
            self.wf(),
            lo <= hi,
            hi <= self.num_total(),
        ensures
            match r {
                Option::Some(p) => lo <= p < hi && self.page_is_free(p as int) && forall|q: int|
                    lo <= q < p ==> !self.page_is_free(q),
                Option::None => forall|q: int| lo <= q < hi ==> !self.page_is_free(q),
            },
    {
        let mut page: usize = lo;
        while page < hi
            invariant
                self.wf(),
                hi <= self.num_total(),
                lo <= page <= hi,
                forall|q: int| lo <= q < page ==> !self.page_is_free(q),
            decreases hi - page,
        {
            if !self.is_allocated(page) {
                return Some(page);
            }
            page = page + 1;
        }
        None
    }

    /// Allocate a single frame and return its physical address: the first
    /// free frame at or after the cursor, or, once the tail is exhausted,
    /// the lowest free frame found by wrapping around. Returns the empty
    /// value when no free frame exists; that is a recoverable condition the
    /// caller must propagate.
    pub fn allocate(&mut self) -> (r: Option<u64>)
        requires
            old(self).wf(),
        ensures
            Self::alloc_spec(*old(self), *final(self), r),
    {
        let ghost pre = *self;
        let mut found = self.scan_free(self.first_free, self.total_pages);
        if found.is_none() {
            // Wrap around and check from the beginning up to the cursor.
            found = self.scan_free(0, self.first_free);
        }
        match found {
            Some(page) => {
                self.first_free = page + 1;
                self.mark_allocated(page);
                let addr: usize = page * PAGE_SIZE;
                proof {
                    assert(addr as int / 4096 == page as int) by (nonlinear_arith)
                        requires
                            addr == page * 4096,
                    ;
                }
                Some(addr as u64)
            },
            None => {
                proof {
                    assert forall|q: int| 0 <= q < pre.num_total() implies !bit_is_free(
                        pre.bitmap@,
                        q,
                    ) by {
                        assert(!pre.page_is_free(q));
                    }
                    lemma_count_free_none(pre.bitmap@, pre.num_total());
                }
                None
            },
        }
    }

    /// Whether the frames `start .. start + n` are all free.
    pub open spec fn run_is_free(self, start: int, n: int) -> bool {
        forall|q: int| start <= q < start + n ==> self.page_is_free(q)
    }

    /// What `alloc_contiguous` does: either the first run of `n` free
    /// frames at or after the cursor is claimed whole, or nothing changes
    /// at all. The scan does not wrap: a run that only exists below the
    /// cursor is not found, a documented limitation.
    pub open spec fn alloc_contiguous_spec(
        pre: FrameAllocator,
        post: FrameAllocator,
        n: int,
        r: Option<u64>,
    ) -> bool {
        &&& post.wf()
        &&& match r {
            Option::None => post == pre && (n == 0 || n > pre.num_free() || forall|s: int|
                pre.cursor() <= s <= pre.num_total() - n ==> !pre.run_is_free(s, n)),
            Option::Some(addr) => {
                let b = addr as int / (PAGE_SIZE as int);
                &&& addr == b * (PAGE_SIZE as int)
                &&& 1 <= n
                &&& pre.cursor() <= b
                &&& b + n <= pre.num_total()
                &&& pre.run_is_free(b, n)
                &&& forall|s: int| pre.cursor() <= s < b ==> !pre.run_is_free(s, n)
                &&& forall|q: int|
                    !(b <= q < b + n) ==> #[trigger] post.page_is_free(q) == pre.page_is_free(q)
                &&& forall|q: int| b <= q < b + n ==> !(#[trigger] post.page_is_free(q))
                &&& post.num_free() == pre.num_free() - n
                &&& post.num_total() == pre.num_total()
                &&& post.cursor() == b + n
            },
        }
    }

    /// Find the first start position in `lo .. lo + span` whose whole run of
    /// `n` frames is free.
    fn scan_run(&self, lo: usize, end: usize, n: usize) -> (r: Option<usize>)
        requires
            self.wf(),
            n >= 1,
            end + n <= self.num_total() + n,
            end + 1 + n <= usize::MAX,
        ensures
            match r {
                Option::Some(s) => lo <= s <= end && self.run_is_free(s as int, n as int)
                    && forall|t: int| lo <= t < s ==> !self.run_is_free(t, n as int),
                Option::None => forall|t: int| lo <= t <= end ==> !self.run_is_free(t, n as int),
            },
    {
        let mut start: usize = lo;
        while start <= end
            invariant
                self.wf(),
                n >= 1,
                end + 1 + n <= usize::MAX,
                lo <= start,
                forall|t: int| lo <= t < start ==> !self.run_is_free(t, n as int),
            decreases end + 1 - start,
        {
            let mut q: usize = start;
            let mut blocked: bool = false;
            while q < start + n && !blocked
                invariant
                    self.wf(),
                    start + n <= usize::MAX,
                    start <= q <= start + n,
                    !blocked ==> forall|p: int| start <= p < q ==> self.page_is_free(p),
                    blocked ==> q < start + n && !self.page_is_free(q as int),
                decreases start + n - q + (if blocked {
                    0int
                } else {
                    1int
                }),
            {
                if self.is_allocated(q) {
                    blocked = true;
                } else {
                    q = q + 1;
                }
            }
            if !blocked {
                return Some(start);
            }
            proof {
                assert(!self.run_is_free(start as int, n as int));
            }
            start = start + 1;
        }
        None
    }

    /// Find the first run of `num_pages` consecutive free frames starting
    /// no earlier than the cursor, claim all of them, and return the base
    /// address. Fails without any partial allocation when the request is
    /// empty, exceeds the free count, or no run exists at or after the
    /// cursor.
    pub fn alloc_contiguous(&mut self, num_pages: usize) -> (r: Option<u64>)
        requires
            old(self).wf(),
        ensures
            Self::alloc_contiguous_spec(*old(self), *final(self), num_pages as int, r),
    {
        let ghost pre = *self;
        if num_pages == 0 || num_pages > self.free_pages {
            return None;
        }
        proof {
            lemma_count_free_bounds(pre.bitmap@, pre.num_total());
        }
        let end: usize = self.total_pages - num_pages;
        match self.scan_run(self.first_free, end, num_pages) {
            Some(start) => {
                self.first_free = start + num_pages;
                let mut j: usize = start;
                while j < start + num_pages
                    invariant
                        self.wf(),
                        pre.wf(),
                        start <= j <= start + num_pages,
                        start + num_pages <= pre.num_total(),
                        self.num_total() == pre.num_total(),
                        self.cursor() == start + num_pages,
                        self.num_free() == pre.num_free() - (j - start),
                        forall|p: int| start <= p < start + num_pages ==> pre.page_is_free(p),
                        forall|p: int|
                            !(start <= p < j) ==> #[trigger] self.page_is_free(p)
                                == pre.page_is_free(p),
                        forall|p: int| start <= p < j ==> !(#[trigger] self.page_is_free(p)),
                    decreases start + num_pages - j,
                {
                    self.mark_allocated(j);
                    j = j + 1;
                }
                let addr: usize = start * PAGE_SIZE;
                proof {
                    assert(addr as int / 4096 == start as int) by (nonlinear_arith)
                        requires
                            addr == start * 4096,
                    ;
                }
                Some(addr as u64)
            },
            None => None,
        }
    }

    /// What `free` does: an allocated frame below the ceiling becomes free
    /// again, the counters follow, the total is pulled forward if needed
    /// and the cursor is rewound if the frame lies below it. Anything else
    /// — an out-of-range address or a frame already free — is a silent
    /// no-op, tolerating defensive callers.
    pub open spec fn free_spec(pre: FrameAllocator, post: FrameAllocator, addr: u64) -> bool {
        let p = addr as int / (PAGE_SIZE as int);
        &&& post.wf()
        &&& if 0 <= p < MAX_PAGES && !pre.page_is_free(p) {
            &&& post.page_is_free(p)
            &&& forall|q: int| q != p ==> #[trigger] post.page_is_free(q) == pre.page_is_free(q)
            &&& post.num_free() == pre.num_free() + 1
            &&& post.num_total() == (if pre.num_total() >= p + 1 {
                pre.num_total()
            } else {
                p + 1
            })
            &&& post.cursor() == (if pre.cursor() <= p {
                pre.cursor()
            } else {
                p
            })
        } else {
            post == pre
        }
    }

    /// Mark the frame holding `addr` free if it is currently allocated;
    /// double frees and out-of-range addresses are silent no-ops.
    pub fn free(&mut self, addr: u64)
        requires
            old(self).wf(),
        ensures
            Self::free_spec(*old(self), *final(self), addr),
    {
        let page_u: u64 = addr / (PAGE_SIZE as u64);
        if page_u < MAX_PAGES as u64 {
            let page: usize = page_u as usize;
            if self.is_allocated(page) {
                self.mark_free(page);
                let ghost mid = *self;
                if page < self.first_free {
                    // rewinding prevents needless wraparounds in alloc
                    self.first_free = page;
                }
                proof {
                    assert forall|q: int| q != page as int implies #[trigger] self.page_is_free(q)
                        == old(self).page_is_free(q) by {
                        assert(mid.page_is_free(q) == old(self).page_is_free(q));
                        assert(self.page_is_free(q) == mid.page_is_free(q));
                    }
                }
            }
        }
    }

    /// Whether `p` is one of the frames that `free_contiguous(addr, n)`
    /// actually releases: inside the request, below the ceiling, and
    /// allocated beforehand.
    pub open spec fn freed_by_range(pre: FrameAllocator, start: int, n: int, p: int) -> bool {
        start <= p < start + n && 0 <= p < MAX_PAGES && !pre.page_is_free(p)
    }

    /// What `free_contiguous` does: every requested frame below the ceiling
    /// is free afterwards, frames outside the request keep their state, the
    /// total covers every frame actually released and grows no further, and
    /// the cursor is rewound to the start of the request if that is lower.
    pub open spec fn free_contiguous_spec(
        pre: FrameAllocator,
        post: FrameAllocator,
        addr: u64,
        n: int,
    ) -> bool {
        let start = addr as int / (PAGE_SIZE as int);
        &&& post.wf()
        &&& forall|p: int|
            0 <= p < MAX_PAGES ==> #[trigger] post.page_is_free(p) == (pre.page_is_free(p) || (
            start <= p < start + n))
        &&& forall|p: int|
            start <= p < start + n && 0 <= p < MAX_PAGES && !(#[trigger] pre.page_is_free(p))
                ==> p < post.num_total()
        &&& post.num_total() >= pre.num_total()
        &&& (post.num_total() == pre.num_total() || Self::freed_by_range(
            pre,
            start,
            n,
            post.num_total() - 1,
        ))
        &&& post.cursor() == (if pre.cursor() <= start {
            pre.cursor()
        } else {
            start
        })
        &&& post.num_free() == pre.num_free() + freed_in_range(pre, start, n)
    }

    /// Free `num_pages` consecutive frames starting at `addr`. Frames
    /// beyond the ceiling are skipped defensively; already-free frames are
    /// left as they are.
    pub fn free_contiguous(&mut self, addr: u64, num_pages: usize)
        requires
            old(self).wf(),
            addr / (PAGE_SIZE as u64) + num_pages <= u64::MAX,
        ensures
            Self::free_contiguous_spec(*old(self), *final(self), addr, num_pages as int),
    {
        let ghost pre = *self;
        let start_u: u64 = addr / (PAGE_SIZE as u64);
        let ghost start = start_u as int;
        let mut i: usize = 0;
        while i < num_pages
            invariant
                self.wf(),
                pre.wf(),
                i <= num_pages,
                start == start_u as int,
                start_u + num_pages <= u64::MAX,
                self.cursor() == pre.cursor(),
                self.num_free() == pre.num_free() + freed_in_range(pre, start, i as int),
                forall|p: int|
                    0 <= p < MAX_PAGES ==> #[trigger] self.page_is_free(p) == (pre.page_is_free(p)
                        || (start <= p < start + i)),
                forall|p: int|
                    start <= p < start + i && 0 <= p < MAX_PAGES && !(#[trigger] pre.page_is_free(
                        p,
                    )) ==> p < self.num_total(),
                self.num_total() >= pre.num_total(),
                (self.num_total() == pre.num_total() || Self::freed_by_range(
                    pre,
                    start,
                    i as int,
                    self.num_total() - 1,
                )),
            decreases num_pages - i,
        {
            let ghost pre_it = *self;
            let page_u: u64 = start_u + (i as u64);
            if page_u < MAX_PAGES as u64 {
                self.mark_free(page_u as usize);
            }
            proof {
                assert forall|p: int| 0 <= p < MAX_PAGES implies #[trigger] self.page_is_free(p)
                    == (pre.page_is_free(p) || (start <= p < start + (i + 1))) by {
                    if p != page_u as int {
                        assert(self.page_is_free(p) == pre_it.page_is_free(p));
                    }
                }
                assert forall|p: int|
                    start <= p < start + (i + 1) && 0 <= p < MAX_PAGES && !(
                    #[trigger] pre.page_is_free(p)) implies p < self.num_total() by {
                    if p != page_u as int {
                        assert(p < pre_it.num_total());
                        assert(pre_it.num_total() <= self.num_total());
                    } else {
                        assert(!pre_it.page_is_free(p));
                    }
                }
                assert(self.num_total() == pre_it.num_total() || !pre_it.page_is_free(
                    page_u as int,
                ));
                // the counter moves exactly when this frame was allocated
                // and in range, which is what the range count adds
                if page_u < MAX_PAGES {
                    if pre.page_is_free(page_u as int) {
                        assert(pre_it.page_is_free(page_u as int));
                        assert(*self == pre_it);
                    }
                } else {
                    assert(*self == pre_it);
                }
            }
            i = i + 1;
        }
        let ghost mid = *self;
        if start_u < self.first_free as u64 {
            self.first_free = start_u as usize;
        }
        proof {
            assert forall|p: int| 0 <= p < MAX_PAGES implies #[trigger] self.page_is_free(p) == (
            pre.page_is_free(p) || (start <= p < start + num_pages)) by {
                assert(mid.page_is_free(p) == (pre.page_is_free(p) || (start <= p < start
                    + num_pages)));
                assert(self.page_is_free(p) == mid.page_is_free(p));
            }
        }
    }

    /// Carve the allocator's free pool out of the bootloader's memory map:
    /// first every frame is marked allocated, then each frame fully covered
    /// by an `Available` record — after rounding the record's start up and
    /// its end down to page boundaries — is marked free. Without a memory
    /// map the allocator falls back to treating the entire ceiling as free,
    /// an unsafe-by-necessity concession to boot robustness.
    pub fn init(&mut self, boot_info: &BootInfo)
        requires
            old(self).wf(),
            forall|i: int|
                0 <= i < boot_info.memory_map@.len() ==> (
                #[trigger] boot_info.memory_map@[i].base) + boot_info.memory_map@[i].length
                    <= u64::MAX,
        ensures
            final(self).wf(),
            final(self).cursor() == 0,
            boot_info.memory_map@.len() == 0 ==> {
                &&& forall|p: int| final(self).page_is_free(p) <==> 0 <= p < MAX_PAGES
                &&& final(self).num_total() == MAX_PAGES
                &&& final(self).num_free() == MAX_PAGES
            },
            boot_info.memory_map@.len() > 0 ==> {
                &&& forall|p: int|
                    final(self).page_is_free(p) <==> covered(boot_info.memory_map@, p)
                &&& forall|p: int| covered(boot_info.memory_map@, p) ==> p < final(self).num_total()
                &&& (final(self).num_total() == 0 || covered(
                    boot_info.memory_map@,
                    final(self).num_total() - 1,
                ))
            },
            final(self).num_free() == free_frames_below(*final(self), final(self).num_total()),
    {
        let ghost mm = boot_info.memory_map@;
        // Mark all pages as allocated and restart the counters: the
        // allocator owns the whole pool again.
        let mut b: usize = 0;
        while b < BITMAP_SIZE
            invariant
                self.bitmap@.len() == BITMAP_SIZE,
                b <= BITMAP_SIZE,
                forall|k: int| 0 <= k < b ==> self.bitmap@[k] == 0xFFu8,
            decreases BITMAP_SIZE - b,
        {
            self.bitmap[b] = 0xFF;
            b = b + 1;
        }
        self.total_pages = 0;
        self.free_pages = 0;
        self.first_free = 0;
        proof {
            assert forall|p: int| 0 <= p < MAX_PAGES implies !bit_is_free(self.bitmap@, p) by {
                let k: u8 = (p % 8) as u8;
                assert((0xFFu8 >> k) & 1 == 1) by (bit_vector)
                    requires
                        k < 8,
                ;
            }
            assert(!bit_is_free(self.bitmap@, 0));
            assert(!self.is_virgin());
        }
        // If no memory map is provided, we have to assume all memory is
        // available.
        if boot_info.memory_map.len() == 0 {
            let mut j: usize = 0;
            while j < MAX_PAGES
                invariant
                    self.wf(),
                    j <= MAX_PAGES,
                    self.num_free() == j,
                    self.num_total() == j,
                    self.cursor() == 0,
                    forall|p: int| #[trigger] self.page_is_free(p) <==> 0 <= p < j,
                decreases MAX_PAGES - j,
            {
                self.mark_free(j);
                j = j + 1;
            }
            proof {
                self.lemma_free_count_exact();
            }
            return ;
        }
        let n: usize = boot_info.memory_map.len();
        let mut idx: usize = 0;
        while idx < n
            invariant
                self.wf(),
                !self.is_virgin(),
                self.cursor() == 0,
                idx <= n,
                n == mm.len(),
                mm == boot_info.memory_map@,
                forall|i: int| 0 <= i < mm.len() ==> (#[trigger] mm[i].base) + mm[i].length
                    <= u64::MAX,
                forall|p: int| #[trigger] self.page_is_free(p) <==> covered_upto(mm, idx as int, p),
                (self.num_total() == 0 || covered_upto(mm, idx as int, self.num_total() - 1)),
            decreases n - idx,
        {
            let entry = boot_info.memory_map[idx];
            if entry.mem_type == MemoryType::Available && entry.base < 0x1_0000_0000u64 {
                let start_addr: u64 = page_align_up(entry.base);
                let end_addr: u64 = page_align_down(entry.base + entry.length);
                let start_pg: u64 = start_addr / (PAGE_SIZE as u64);
                let end_pg: u64 = end_addr / (PAGE_SIZE as u64);
                proof {
                    lemma_fundamental_div_mod(start_addr as int, 4096);
                    lemma_fundamental_div_mod(end_addr as int, 4096);
                    lemma_fundamental_div_mod(entry.base + entry.length, 4096);
                    assert forall|p: int|
                        #[trigger] entry_covers(mm[idx as int], p) <==> (start_pg <= p < end_pg && 0
                            <= p < MAX_PAGES) by {
                        assert(start_addr == 4096 * (start_pg as int));
                        assert(end_addr == 4096 * (end_pg as int));
                    }
                }
                let mut pg: u64 = start_pg;
                while pg < end_pg
                    invariant
                        self.wf(),
                        !self.is_virgin(),
                        self.cursor() == 0,
                        start_pg <= pg,
                        pg <= end_pg || pg == start_pg,
                        forall|p: int|
                            #[trigger] entry_covers(mm[idx as int], p) <==> (start_pg <= p < end_pg
                                && 0 <= p < MAX_PAGES),
                        forall|p: int| #[trigger]
                            self.page_is_free(p) <==> (covered_upto(mm, idx as int, p) || (
                            start_pg <= p < pg && 0 <= p < MAX_PAGES)),
                        (self.num_total() == 0 || covered_upto(mm, idx as int, self.num_total() - 1)
                            || (start_pg <= self.num_total() - 1 < pg && self.num_total() - 1
                            < MAX_PAGES)),
                    decreases end_pg - pg,
                {
                    let ghost pre_it = *self;
                    if pg < MAX_PAGES as u64 {
                        self.mark_free(pg as usize);
                    }
                    proof {
                        assert forall|p: int| #[trigger] self.page_is_free(p) <==> (covered_upto(
                            mm,
                            idx as int,
                            p,
                        ) || (start_pg <= p < pg as int + 1 && 0 <= p < MAX_PAGES)) by {
                            if p != pg as int {
                                assert(self.page_is_free(p) == pre_it.page_is_free(p));
                                assert(pre_it.page_is_free(p) <==> (covered_upto(mm, idx as int, p)
                                    || (start_pg <= p < pg as int && 0 <= p < MAX_PAGES)));
                            } else {
                                if pg < MAX_PAGES as u64 {
                                    assert(self.page_is_free(p));
                                } else {
                                    assert(self.page_is_free(p) == pre_it.page_is_free(p));
                                }
                            }
                        }
                    }
                    pg = pg + 1;
                }
            } else {
                proof {
                    assert forall|p: int| !(#[trigger] entry_covers(mm[idx as int], p)) by {
                        if 0 <= p < MAX_PAGES {
                            assert(p * 4096 < 0x1_0000_0000int) by (nonlinear_arith)
                                requires
                                    0 <= p < 0x100000int,
                            ;
                        }
                    }
                }
            }
            proof {
                assert forall|p: int| #[trigger] self.page_is_free(p) <==> covered_upto(
                    mm,
                    idx as int + 1,
                    p,
                ) by {
                    assert(covered_upto(mm, idx as int + 1, p) == (covered_upto(mm, idx as int, p)
                        || entry_covers(mm[idx as int], p)));
                    assert(self.page_is_free(p) <==> (covered_upto(mm, idx as int, p)
                        || entry_covers(mm[idx as int], p)));
                }
            }
            idx = idx + 1;
        }
        proof {
            assert forall|p: int| #[trigger] covered(mm, p) implies p < self.num_total() by {
                assert(self.page_is_free(p) <==> covered_upto(mm, n as int, p));
                if p >= self.num_total() {
                    assert(!bit_is_free(self.bitmap@, p));
                    assert(false);
                }
            }
            assert forall|p: int| #[trigger] self.page_is_free(p) <==> covered(mm, p) by {
                assert(self.page_is_free(p) <==> covered_upto(mm, n as int, p));
            }
            self.lemma_free_count_exact();
        }
    }

    /// Number of free frames: in every consistent state, exactly the
    /// number of frames that read free.
    pub fn free_count(&self) -> (r: usize)
        ensures
            r == self.num_free(),
            self.wf() ==> r == free_frames_below(*self, self.num_total()),
    {
        proof {
            if self.wf() {
                self.lemma_free_count_exact();
            }
        }
        self.free_pages
    }

    /// Number of frames ever made available.
    pub fn total_count(&self) -> (r: usize)
        ensures
            r == self.num_total(),
    {
        self.total_pages
    }
}

/// Initialize a frame allocator from the bootloader's memory map.
pub fn init(fa: &mut FrameAllocator, boot_info: &BootInfo)
    requires
        old(fa).wf(),
        forall|i: int|
            0 <= i < boot_info.memory_map@.len() ==> (#[trigger] boot_info.memory_map@[i].base)
                + boot_info.memory_map@[i].length <= u64::MAX,
    ensures
        final(fa).wf(),
        final(fa).cursor() == 0,
        boot_info.memory_map@.len() == 0 ==> {
            &&& forall|p: int| final(fa).page_is_free(p) <==> 0 <= p < MAX_PAGES
            &&& final(fa).num_total() == MAX_PAGES
            &&& final(fa).num_free() == MAX_PAGES
        },
        boot_info.memory_map@.len() > 0 ==> {
            &&& forall|p: int| final(fa).page_is_free(p) <==> covered(boot_info.memory_map@, p)
            &&& forall|p: int| covered(boot_info.memory_map@, p) ==> p < final(fa).num_total()
            &&& (final(fa).num_total() == 0 || covered(
                boot_info.memory_map@,
                final(fa).num_total() - 1,
            ))
        },
        final(fa).num_free() == free_frames_below(*final(fa), final(fa).num_total()),
{
    fa.init(boot_info);
}

/// Allocate a single frame.
pub fn alloc_frame(fa: &mut FrameAllocator) -> (r: Option<u64>)
    requires
        old(fa).wf(),
    ensures
        FrameAllocator::alloc_spec(*old(fa), *final(fa), r),
{
    fa.allocate()
}

/// Allocate `count` physically contiguous frames.
pub fn alloc_frames(fa: &mut FrameAllocator, count: usize) -> (r: Option<u64>)
    requires
        old(fa).wf(),
    ensures
        FrameAllocator::alloc_contiguous_spec(*old(fa), *final(fa), count as int, r),
{
    fa.alloc_contiguous(count)
}

/// Free a single frame.
pub fn free_frame(fa: &mut FrameAllocator, addr: u64)
    requires
        old(fa).wf(),
    ensures
        FrameAllocator::free_spec(*old(fa), *final(fa), addr),
{
    fa.free(addr);
}

/// Free `count` consecutive frames starting at `addr`.
pub fn free_frames(fa: &mut FrameAllocator, addr: u64, count: usize)
    requires
        old(fa).wf(),
        addr / (PAGE_SIZE as u64) + count <= u64::MAX,
    ensures
        FrameAllocator::free_contiguous_spec(*old(fa), *final(fa), addr, count as int),
{
    fa.free_contiguous(addr, count);
}

/// Number of free frames.
pub fn free_frames_count(fa: &FrameAllocator) -> (r: usize)
    ensures
        r == fa.num_free(),
{
    fa.free_count()
}

/// Number of frames ever made available.
pub fn total_frames_count(fa: &FrameAllocator) -> (r: usize)
    ensures
        r == fa.num_total(),
{
    fa.total_count()
}

/// Frame statistics: total, used and free frame counts. The three always
/// satisfy `total == used + free`.
pub fn stats(fa: &FrameAllocator) -> (r: (usize, usize, usize))
    requires
        fa.wf(),
    ensures
        r.0 == fa.num_total(),
        r.2 == fa.num_free(),
        r.1 == fa.num_total() - fa.num_free(),
        r.0 == r.1 + r.2,
{
    proof {
        fa.lemma_counts_invariant();
    }
    let total: usize = fa.total_count();
    let free: usize = fa.free_count();
    let used: usize = total - free;
    (total, used, free)
}

/// An allocation cannot fail while a free frame exists below the total:
/// the empty return is reserved for true exhaustion.
pub proof fn lemma_alloc_succeeds_when_free(
    pre: FrameAllocator,
    post: FrameAllocator,
    r: Option<u64>,
    p: int,
)
    requires
        FrameAllocator::alloc_spec(pre, post, r),
        pre.wf(),
        0 <= p < pre.num_total(),
        pre.page_is_free(p),
    ensures
        r is Some,
{
    if r is None {
        lemma_run_bounds_count(pre, p, 1);
    }
}

/// A contiguous allocation cannot fail while a long enough free run lies
/// between the cursor and the total.
pub proof fn lemma_contiguous_succeeds_when_run(
    pre: FrameAllocator,
    post: FrameAllocator,
    n: int,
    r: Option<u64>,
    s: int,
)
    requires
        FrameAllocator::alloc_contiguous_spec(pre, post, n, r),
        pre.wf(),
        n >= 1,
        pre.cursor() <= s,
        s + n <= pre.num_total(),
        pre.run_is_free(s, n),
    ensures
        r is Some,
{
    if r is None {
        lemma_run_bounds_count(pre, s, n);
    }
}

/// Two allocations without an intervening free never hand out the same
/// frame: the first one marks its frame allocated, and an allocation only
/// ever returns a frame that was free at the time of the call.
pub proof fn lemma_alloc_uniqueness(
    s0: FrameAllocator,
    s1: FrameAllocator,
    s2: FrameAllocator,
    a1: u64,
    a2: u64,
)
    requires
        FrameAllocator::alloc_spec(s0, s1, Some(a1)),
        FrameAllocator::alloc_spec(s1, s2, Some(a2)),
    ensures
        a1 != a2,
{
    let p1 = a1 as int / (PAGE_SIZE as int);
    let p2 = a2 as int / (PAGE_SIZE as int);
    assert(!s1.page_is_free(p1));
    assert(s1.page_is_free(p2));
}

/// An allocation never returns a frame that was allocated at the time of
/// the call: a frame handed out once cannot come back until it is freed.
pub proof fn lemma_alloc_returns_free(pre: FrameAllocator, post: FrameAllocator, addr: u64)
    requires
        FrameAllocator::alloc_spec(pre, post, Some(addr)),
    ensures
        pre.page_is_free(addr as int / (PAGE_SIZE as int)),
        !post.page_is_free(addr as int / (PAGE_SIZE as int)),
{
}

/// A contiguous allocation is all or nothing: either it returns a base
/// whose whole run was free before and is allocated after, with every
/// other frame untouched, or it fails and the allocator is exactly as it
/// was, with no partial allocation left behind.
pub proof fn lemma_contiguous_all_or_nothing(
    pre: FrameAllocator,
    post: FrameAllocator,
    n: int,
    r: Option<u64>,
)
    requires
        FrameAllocator::alloc_contiguous_spec(pre, post, n, r),
    ensures
        r is Some ==> {
            let b = r->0 as int / (PAGE_SIZE as int);
            &&& pre.run_is_free(b, n)
            &&& forall|q: int| b <= q < b + n ==> !(#[trigger] post.page_is_free(q))
            &&& forall|q: int|
                !(b <= q < b + n) ==> #[trigger] post.page_is_free(q) == pre.page_is_free(q)
        },
        r is None ==> post == pre,
{
}

} // verus!
