//! Bookkeeping of the kernel heap window: a fixed virtual range backed
//! lazily by mapped frames, growing by whole chunks up to a hard ceiling.
//! The free-space tracking inside the window belongs to the general-purpose
//! allocator that consumes it; this module owns how the window is mapped
//! and how far it may ever extend.

use vstd::prelude::*;
use crate::mem::PAGE_SIZE;
use crate::paging::{MAX_TABLES, Mapper, PRESENT, PageTableEntry, WRITABLE};
use crate::phys::FrameAllocator;

verus! {

/// Base virtual address of the heap window: past the kernel and bootloader.
pub const HEAP_START: u64 = 0x0000_0000_0200_0000;

/// Bytes mapped eagerly when the heap is first set up.
pub const INITIAL_HEAP_SIZE: usize = 0x40_0000;

/// The least growth of one extension, so many small requests do not each
/// pay for a walk of the tables.
pub const EXTEND_CHUNK_SIZE: usize = 0x40_0000;

/// Hard ceiling on the mapped extent of the heap window.
pub const MAX_HEAP_SIZE: usize = 0x2000_0000;

/// The mapped extent of the kernel heap window. The extent only ever
/// grows, page by page, and never past the ceiling.
pub struct KernelHeap {
    heap_end: u64,
}

/// Whether the mapper is clear of huge mappings over the whole heap
/// window, which `map_page` demands and this module preserves.
pub open spec fn window_clear(m: Mapper) -> bool {
    forall|va: u64|
        HEAP_START <= va < HEAP_START + MAX_HEAP_SIZE ==> !(#[trigger] m.hits_huge(va))
}

/// The address of the `k`-th page past `base`: the page a growth step
/// numbered `k` maps.
pub open spec fn window_page(base: u64, k: int) -> u64 {
    (base + k * PAGE_SIZE) as u64
}

/// The frame behind the leaf mapping of `va`, or zero where there is no
/// leaf.
pub open spec fn backing_frame(m: Mapper, va: u64) -> u64 {
    match m.spec_leaf(va) {
        Option::Some(e) => e.spec_addr(),
        Option::None => 0,
    }
}

/// What heap growth guarantees for one window page: a present + writable
/// leaf whose frame was free before the growth step, is owned (no longer
/// free) afterwards, and is what the page translates to.
pub open spec fn page_freshly_backed(
    m: Mapper,
    pre_fa: FrameAllocator,
    post_fa: FrameAllocator,
    va: u64,
) -> bool {
    let f = backing_frame(m, va);
    &&& m.spec_leaf(va) == Option::Some(
        PageTableEntry::spec_new(f, crate::paging::PRESENT | crate::paging::WRITABLE),
    )
    &&& f % (PAGE_SIZE as u64) == 0
    &&& pre_fa.page_is_free(f as int / (PAGE_SIZE as int))
    &&& !post_fa.page_is_free(f as int / (PAGE_SIZE as int))
    &&& m.spec_translate(va) == Option::Some(f)
}

proof fn lemma_frame_bits(v: u64)
    by (bit_vector)
    requires
        v % 4096 == 0,
        v < 0x1_0000_0000,
    ensures
        v & 0x000F_FFFF_FFFF_F000u64 == v,
        v & 0xFFFu64 == 0,
{
}

proof fn lemma_window_vpn(a: u64, b: u64)
    by (bit_vector)
    requires
        a % 4096 == 0,
        b % 4096 == 0,
        a != b,
        a < 0x1_0000_0000_0000,
        b < 0x1_0000_0000_0000,
    ensures
        (a >> 12) & 0xF_FFFF_FFFFu64 != (b >> 12) & 0xF_FFFF_FFFFu64,
{
}

/// Two distinct page-aligned addresses inside the address range the heap
/// can ever reach fall on distinct virtual page numbers.
proof fn lemma_window_vpn_distinct(a: u64, b: u64)
    requires
        a % 4096 == 0,
        b % 4096 == 0,
        a != b,
        a < 0x1_0000_0000_0000,
        b < 0x1_0000_0000_0000,
    ensures
        crate::paging::vpn(a) != crate::paging::vpn(b),
{
    lemma_window_vpn(a, b);
}

/// A window address `base + k` pages is page-aligned and below the
/// ceiling's end whenever the base is.
proof fn lemma_window_aligned(base: u64, k: int)
    requires
        base % 4096 == 0,
        HEAP_START <= base,
        0 <= k,
        base + k * 4096 < HEAP_START + MAX_HEAP_SIZE,
    ensures
        (base + k * 4096) % 4096 == 0,
        ((base + k * 4096) as u64) % 4096 == 0,
        base + k * 4096 < 0x1_0000_0000_0000,
{
    assert((base + k * 4096) % 4096 == 0) by (nonlinear_arith)
        requires
            base % 4096 == 0,
            k >= 0,
    ;
}

/// Aligned addresses with distinct page numbers are distinct.
proof fn lemma_div_injective(a: u64, b: u64)
    requires
        a % 4096 == 0,
        b % 4096 == 0,
        a as int / 4096 != b as int / 4096,
    ensures
        a != b,
{
}

impl KernelHeap {
    /// One past the last mapped byte of the window.
    pub closed spec fn spec_end(self) -> u64 {
        self.heap_end
    }

    /// Number of bytes currently mapped.
    pub open spec fn mapped_bytes(self) -> int {
        self.spec_end() - HEAP_START
    }

    /// The extent starts at the window base, never passes the ceiling, and
    /// always covers whole pages.
    pub open spec fn wf(self) -> bool {
        &&& HEAP_START <= self.spec_end() <= HEAP_START + MAX_HEAP_SIZE
        &&& self.spec_end() % (PAGE_SIZE as u64) == 0
    }

    /// A heap with nothing mapped yet.
    pub fn new() -> (r: KernelHeap)
        ensures
            r.wf(),
            r.spec_end() == HEAP_START,
    {
        proof {
            assert(0x0200_0000u64 % 4096u64 == 0) by (bit_vector);
        }
        KernelHeap { heap_end: HEAP_START }
    }

    /// Current mapped byte count of the window.
    pub fn heap_size(&self) -> (r: usize)
        requires
            self.wf(),
        ensures
            r == self.mapped_bytes(),
    {
        (self.heap_end - HEAP_START) as usize
    }

    /// Map up to `num_pages` fresh frames at the end of the window, one at
    /// a time, stopping early — but keeping what was mapped — when no
    /// frame can be obtained or a table level cannot be built. The extent
    /// advances by exactly the pages mapped, each new page backed by its
    /// own freshly allocated frame; given four free frames per page and
    /// arena room, nothing stops early.
    fn grow(&mut self, fa: &mut FrameAllocator, mapper: &mut Mapper, num_pages: usize) -> (mapped:
        usize)
        requires
            old(self).wf(),
            old(fa).wf(),
            old(mapper).wf(),
            window_clear(*old(mapper)),
            old(self).spec_end() + num_pages * PAGE_SIZE <= HEAP_START + MAX_HEAP_SIZE,
        ensures
            final(self).wf(),
            final(fa).wf(),
            final(mapper).wf(),
            window_clear(*final(mapper)),
            final(fa).num_total() == old(fa).num_total(),
            forall|q: int| #[trigger] final(fa).page_is_free(q) ==> old(fa).page_is_free(q),
            mapped <= num_pages,
            final(self).spec_end() == old(self).spec_end() + mapped * PAGE_SIZE,
            forall|k: int|
                0 <= k < mapped ==> page_freshly_backed(
                    *final(mapper),
                    *old(fa),
                    *final(fa),
                    #[trigger] window_page(old(self).spec_end(), k),
                ),
            forall|k1: int, k2: int|
                0 <= k1 < k2 < mapped ==> backing_frame(
                    *final(mapper),
                    #[trigger] window_page(old(self).spec_end(), k1),
                ) != backing_frame(
                    *final(mapper),
                    #[trigger] window_page(old(self).spec_end(), k2),
                ),
            old(fa).num_free() >= 4 * num_pages && old(mapper).table_count() + 3 * num_pages
                <= MAX_TABLES ==> mapped == num_pages,
    {
        let ghost pre_end = self.heap_end;
        let ghost pre_fa0 = *fa;
        let ghost pre_free = fa.num_free();
        let ghost pre_tables = mapper.table_count();
        let mut mapped: usize = 0;
        let mut stopped: bool = false;
        proof {
            assert((1u64 | 2u64) == 3 && ((1u64 | 2u64) | 1u64) == 3 && 3u64
                & 0x8000_0000_0000_0FFFu64 == 3) by (bit_vector);
        }
        while mapped < num_pages && !stopped
            invariant
                self.wf(),
                fa.wf(),
                mapper.wf(),
                window_clear(*mapper),
                fa.num_total() == old(fa).num_total(),
                pre_fa0 == *old(fa),
                forall|q: int| #[trigger] fa.page_is_free(q) ==> pre_fa0.page_is_free(q),
                self.spec_end() == pre_end,
                pre_end == old(self).spec_end(),
                mapped <= num_pages,
                pre_end + num_pages * PAGE_SIZE <= HEAP_START + MAX_HEAP_SIZE,
                forall|k: int|
                    0 <= k < mapped ==> page_freshly_backed(
                        *mapper,
                        pre_fa0,
                        *fa,
                        #[trigger] window_page(pre_end, k),
                    ),
                forall|k1: int, k2: int|
                    0 <= k1 < k2 < mapped ==> backing_frame(
                        *mapper,
                        #[trigger] window_page(pre_end, k1),
                    ) != backing_frame(*mapper, #[trigger] window_page(pre_end, k2)),
                !stopped ==> fa.num_free() >= pre_free - 4 * mapped,
                !stopped ==> mapper.table_count() <= pre_tables + 3 * mapped,
                stopped ==> mapped < num_pages,
                stopped ==> !(pre_free >= 4 * num_pages && pre_tables + 3 * num_pages
                    <= MAX_TABLES),
            decreases num_pages - mapped + (if stopped {
                0int
            } else {
                1int
            }),
        {
            let virt: u64 = self.heap_end + ((mapped * PAGE_SIZE) as u64);
            proof {
                assert(HEAP_START <= virt < HEAP_START + MAX_HEAP_SIZE);
                lemma_window_aligned(pre_end, mapped as int);
            }
            let ghost free_at_iter_state = *fa;
            let ghost free_at_iter = fa.num_free();
            match fa.allocate() {
                None => {
                    proof {
                        assert(fa.num_free() == 0);
                        assert(pre_free <= 4 * mapped);
                    }
                    stopped = true;
                },
                Some(frame) => {
                    let ghost mapper0 = *mapper;
                    let ghost fa0 = *fa;
                    proof {
                        free_at_iter_state.lemma_counts_invariant();
                        let fp = frame as int / (PAGE_SIZE as int);
                        assert((fp * 4096) % 4096 == 0 && fp * 4096 < 0x1_0000_0000)
                            by (nonlinear_arith)
                            requires
                                0 <= fp < 0x100000,
                        ;
                        lemma_frame_bits(frame);
                    }
                    match mapper.map_page(fa, virt, frame, PRESENT | WRITABLE) {
                        Ok(()) => {
                            proof {
                                let fp = frame as int / (PAGE_SIZE as int);
                                // the new page: a fresh, exclusively owned
                                // frame behind a present + writable leaf
                                assert(mapper.spec_leaf(virt) == Option::Some(
                                    PageTableEntry::spec_new(frame, (PRESENT | WRITABLE)
                                        | PRESENT),
                                ));
                                PageTableEntry::lemma_spec_new_fields(
                                    frame,
                                    (PRESENT | WRITABLE) | PRESENT,
                                );
                                PageTableEntry::lemma_spec_new_fields(frame, PRESENT | WRITABLE);
                                assert(((1u64 | 2u64) | 1u64) & 0x8000_0000_0000_0FFFu64 == (1u64
                                    | 2u64) & 0x8000_0000_0000_0FFFu64) by (bit_vector);
                                assert(backing_frame(*mapper, virt) == frame);
                                assert(crate::paging::vpn(virt) == crate::paging::vpn(virt));
                                lemma_frame_bits(virt);
                                assert(mapper.spec_translate(virt) == Option::Some(frame));
                                assert(free_at_iter_state.page_is_free(fp));
                                assert(pre_fa0.page_is_free(fp));
                                assert(!fa0.page_is_free(fp));
                                assert(!fa.page_is_free(fp));
                                PageTableEntry::lemma_spec_new_flags_congruent(
                                    frame,
                                    (PRESENT | WRITABLE) | PRESENT,
                                    PRESENT | WRITABLE,
                                );
                                assert(page_freshly_backed(*mapper, pre_fa0, *fa, virt));
                                // every earlier page keeps its leaf and
                                // stays backed by its own frame
                                assert(virt == window_page(pre_end, mapped as int));
                                assert forall|k: int| 0 <= k < mapped + 1 implies page_freshly_backed(
                                    *mapper,
                                    pre_fa0,
                                    *fa,
                                    #[trigger] window_page(pre_end, k),
                                ) by {
                                    if k < mapped {
                                        let wa = window_page(pre_end, k);
                                        lemma_window_aligned(pre_end, k);
                                        assert(page_freshly_backed(
                                            mapper0,
                                            pre_fa0,
                                            free_at_iter_state,
                                            wa,
                                        ));
                                        lemma_window_vpn_distinct(wa, virt);
                                        assert(mapper.spec_leaf(wa) == mapper0.spec_leaf(wa));
                                        assert(mapper.spec_translate(wa)
                                            == mapper0.spec_translate(wa));
                                        let f = backing_frame(mapper0, wa);
                                        assert(!free_at_iter_state.page_is_free(
                                            f as int / (PAGE_SIZE as int),
                                        ));
                                        assert(!fa0.page_is_free(f as int / (PAGE_SIZE as int)));
                                        assert(!fa.page_is_free(f as int / (PAGE_SIZE as int)));
                                    }
                                }
                                assert forall|k1: int, k2: int|
                                    0 <= k1 < k2 < mapped + 1 implies backing_frame(
                                    *mapper,
                                    #[trigger] window_page(pre_end, k1),
                                ) != backing_frame(
                                    *mapper,
                                    #[trigger] window_page(pre_end, k2),
                                ) by {
                                    let wa1 = window_page(pre_end, k1);
                                    let wa2 = window_page(pre_end, k2);
                                    lemma_window_aligned(pre_end, k1);
                                    lemma_window_aligned(pre_end, k2);
                                    lemma_window_vpn_distinct(wa1, virt);
                                    if k2 < mapped {
                                        lemma_window_vpn_distinct(wa2, virt);
                                        assert(backing_frame(*mapper, wa1) == backing_frame(
                                            mapper0,
                                            wa1,
                                        ));
                                        assert(backing_frame(*mapper, wa2) == backing_frame(
                                            mapper0,
                                            wa2,
                                        ));
                                    } else {
                                        // the new frame was free a moment
                                        // ago; every earlier one was not
                                        let f1 = backing_frame(mapper0, wa1);
                                        assert(page_freshly_backed(
                                            mapper0,
                                            pre_fa0,
                                            free_at_iter_state,
                                            wa1,
                                        ));
                                        assert(!free_at_iter_state.page_is_free(
                                            f1 as int / (PAGE_SIZE as int),
                                        ));
                                        assert(free_at_iter_state.page_is_free(
                                            frame as int / (PAGE_SIZE as int),
                                        ));
                                        assert(backing_frame(*mapper, wa1) == f1);
                                        assert(f1 % 4096 == 0 && frame % 4096 == 0);
                                        assert(f1 as int / 4096 != frame as int / 4096);
                                        lemma_div_injective(f1, frame);
                                    }
                                }
                                assert forall|q: int| #[trigger] fa.page_is_free(q) implies pre_fa0.page_is_free(
                                    q,
                                ) by {
                                    assert(fa.page_is_free(q) ==> fa0.page_is_free(q));
                                    assert(fa0.page_is_free(q) ==> free_at_iter_state.page_is_free(
                                        q,
                                    ));
                                }
                            }
                            mapped = mapped + 1;
                        },
                        Err(_) => {
                            let ghost fa1_err = *fa;
                            // hand the unused page frame back before giving up
                            fa.free(frame);
                            stopped = true;
                            proof {
                                let mbudget = if fa0.num_free() <= MAX_TABLES
                                    - mapper0.table_count() {
                                    fa0.num_free()
                                } else {
                                    MAX_TABLES - mapper0.table_count()
                                };
                                assert(mapper0.missing_tables(virt) > mbudget);
                                assert(mbudget <= 2);
                                assert(fa0.num_free() == free_at_iter - 1);
                                if fa0.num_free() <= 2 {
                                    assert(pre_free <= 4 * mapped + 3);
                                } else {
                                    assert(MAX_TABLES - mapper0.table_count() <= 2);
                                    assert(pre_tables + 3 * num_pages > MAX_TABLES);
                                }
                                let fp = frame as int / (PAGE_SIZE as int);
                                assert(free_at_iter_state.page_is_free(fp));
                                assert forall|q: int| #[trigger] fa.page_is_free(q) implies pre_fa0.page_is_free(
                                    q,
                                ) by {
                                    if q == fp {
                                        assert(free_at_iter_state.page_is_free(q));
                                    } else {
                                        assert(fa.page_is_free(q) ==> fa1_err.page_is_free(q));
                                        assert(fa1_err.page_is_free(q) ==> fa0.page_is_free(q));
                                        assert(fa0.page_is_free(q) ==> free_at_iter_state.page_is_free(
                                            q,
                                        ));
                                    }
                                }
                                // the mapped pages keep their leaves — the
                                // failed call changed no translation — and
                                // their frames stay owned: the frame given
                                // back was still free when this step began
                                assert forall|k: int| 0 <= k < mapped implies page_freshly_backed(
                                    *mapper,
                                    pre_fa0,
                                    *fa,
                                    #[trigger] window_page(pre_end, k),
                                ) by {
                                    let wa = window_page(pre_end, k);
                                    assert(page_freshly_backed(
                                        mapper0,
                                        pre_fa0,
                                        free_at_iter_state,
                                        wa,
                                    ));
                                    assert(mapper.spec_leaf(wa) == mapper0.spec_leaf(wa));
                                    assert(mapper.spec_translate(wa) == mapper0.spec_translate(
                                        wa,
                                    ));
                                    let f = backing_frame(mapper0, wa);
                                    let fq = f as int / (PAGE_SIZE as int);
                                    assert(!free_at_iter_state.page_is_free(fq));
                                    assert(fq != fp);
                                    assert(!fa0.page_is_free(fq));
                                    assert(!fa1_err.page_is_free(fq));
                                    assert(!fa.page_is_free(fq));
                                }
                                assert forall|k1: int, k2: int|
                                    0 <= k1 < k2 < mapped implies backing_frame(
                                    *mapper,
                                    #[trigger] window_page(pre_end, k1),
                                ) != backing_frame(
                                    *mapper,
                                    #[trigger] window_page(pre_end, k2),
                                ) by {
                                    let wa1 = window_page(pre_end, k1);
                                    let wa2 = window_page(pre_end, k2);
                                    assert(backing_frame(*mapper, wa1) == backing_frame(
                                        mapper0,
                                        wa1,
                                    ));
                                    assert(backing_frame(*mapper, wa2) == backing_frame(
                                        mapper0,
                                        wa2,
                                    ));
                                }
                            }
                        },
                    }
                },
            }
        }
        proof {
            assert((pre_end + mapped * 4096) % 4096 == 0) by (nonlinear_arith)
                requires
                    pre_end % 4096 == 0,
                    mapped >= 0,
            ;
        }
        self.heap_end = self.heap_end + ((mapped * PAGE_SIZE) as u64);
        mapped
    }

    /// Map more pages into the heap window. Extends by at least
    /// `min_bytes` (rounded up to pages), but at least a whole chunk so
    /// many small extensions do not thrash, and at most the headroom left
    /// under the ceiling. Committing whatever could be mapped, it reports
    /// failure only when the ceiling was already reached or not a single
    /// page could be mapped.
    pub fn try_extend(
        &mut self,
        fa: &mut FrameAllocator,
        mapper: &mut Mapper,
        min_bytes: usize,
    ) -> (r: bool)
        requires
            old(self).wf(),
            old(fa).wf(),
            old(mapper).wf(),
            window_clear(*old(mapper)),
        ensures
            final(self).wf(),
            final(fa).wf(),
            final(mapper).wf(),
            window_clear(*final(mapper)),
            final(fa).num_total() == old(fa).num_total(),
            forall|q: int| #[trigger] final(fa).page_is_free(q) ==> old(fa).page_is_free(q),
            final(self).mapped_bytes() <= MAX_HEAP_SIZE,
            final(self).spec_end() >= old(self).spec_end(),
            old(self).mapped_bytes() >= MAX_HEAP_SIZE ==> r == false && *final(self) == *old(self),
            r == false ==> final(self).spec_end() == old(self).spec_end(),
            r == true <==> final(self).spec_end() > old(self).spec_end(),
            old(self).mapped_bytes() < MAX_HEAP_SIZE && old(fa).num_free() >= 4 * Self::request_pages(
                *old(self),
                min_bytes,
            ) && old(mapper).table_count() + 3 * Self::request_pages(*old(self), min_bytes)
                <= MAX_TABLES ==> r == true && final(self).spec_end() == old(self).spec_end()
                + Self::request_pages(*old(self), min_bytes) * PAGE_SIZE,
    {
        let current: usize = (self.heap_end - HEAP_START) as usize;
        if current >= MAX_HEAP_SIZE {
            return false;
        }
        let want: usize = if min_bytes >= EXTEND_CHUNK_SIZE {
            min_bytes
        } else {
            EXTEND_CHUNK_SIZE
        };
        let capped: usize = if want <= MAX_HEAP_SIZE - current {
            want
        } else {
            MAX_HEAP_SIZE - current
        };
        let num_pages: usize = (capped + PAGE_SIZE - 1) / PAGE_SIZE;
        proof {
            assert(num_pages == Self::request_pages(*old(self), min_bytes));
            assert(0x0200_0000u64 % 4096u64 == 0) by (bit_vector);
            let e0: u64 = self.heap_end;
            assert((current as int) % 4096 == 0) by (nonlinear_arith)
                requires
                    current as int == e0 - HEAP_START,
                    e0 % 4096 == 0,
                    HEAP_START % 4096 == 0,
            ;
            assert((MAX_HEAP_SIZE - current) % 4096 == 0) by (nonlinear_arith)
                requires
                    (current as int) % 4096 == 0,
                    current <= MAX_HEAP_SIZE,
            ;
            assert(num_pages * 4096 <= MAX_HEAP_SIZE - current) by (nonlinear_arith)
                requires
                    num_pages == (capped + 4095) / 4096,
                    capped <= MAX_HEAP_SIZE - current,
                    (MAX_HEAP_SIZE - current) % 4096 == 0,
                    capped >= 0,
            ;
        }
        let mapped = self.grow(fa, mapper, num_pages);
        mapped > 0
    }

    /// How many pages an extension request for `min_bytes` asks for: the
    /// larger of the request and one chunk, cut down to the headroom under
    /// the ceiling, in whole pages.
    pub open spec fn request_pages(self, min_bytes: usize) -> int {
        let current = self.mapped_bytes();
        let want = if min_bytes >= EXTEND_CHUNK_SIZE {
            min_bytes as int
        } else {
            EXTEND_CHUNK_SIZE as int
        };
        let capped = if want <= MAX_HEAP_SIZE - current {
            want
        } else {
            MAX_HEAP_SIZE - current
        };
        (capped + PAGE_SIZE - 1) / (PAGE_SIZE as int)
    }
}

/// The heap window can never be mapped beyond its hard ceiling, in any
/// reachable state.
pub proof fn lemma_heap_ceiling(h: KernelHeap)
    requires
        h.wf(),
    ensures
        h.mapped_bytes() <= MAX_HEAP_SIZE,
{
}

/// Set up the heap: map the initial pages of the window, each obtained
/// from the frame allocator and installed through the mapper, and record
/// the new extent. True exactly when the whole initial extent could be
/// mapped.
pub fn init(heap: &mut KernelHeap, fa: &mut FrameAllocator, mapper: &mut Mapper) -> (r: bool)
    requires
        old(heap).wf(),
        old(heap).spec_end() == HEAP_START,
        old(fa).wf(),
        old(mapper).wf(),
        window_clear(*old(mapper)),
    ensures
        final(heap).wf(),
        final(fa).wf(),
        final(mapper).wf(),
        window_clear(*final(mapper)),
        final(fa).num_total() == old(fa).num_total(),
        forall|q: int| #[trigger] final(fa).page_is_free(q) ==> old(fa).page_is_free(q),
        r == true <==> final(heap).mapped_bytes() == INITIAL_HEAP_SIZE,
        final(heap).mapped_bytes() <= INITIAL_HEAP_SIZE,
        forall|k: int|
            0 <= k * PAGE_SIZE < final(heap).mapped_bytes() ==> page_freshly_backed(
                *final(mapper),
                *old(fa),
                *final(fa),
                #[trigger] window_page(HEAP_START, k),
            ),
        forall|k1: int, k2: int|
            0 <= k1 < k2 && k2 * PAGE_SIZE < final(heap).mapped_bytes() ==> backing_frame(
                *final(mapper),
                #[trigger] window_page(HEAP_START, k1),
            ) != backing_frame(*final(mapper), #[trigger] window_page(HEAP_START, k2)),
        old(fa).num_free() >= 4 * (INITIAL_HEAP_SIZE / PAGE_SIZE) && old(mapper).table_count() + 3
            * (INITIAL_HEAP_SIZE / PAGE_SIZE) <= MAX_TABLES ==> r == true,
{
    let ghost pre_fa = *fa;
    let num_pages: usize = (INITIAL_HEAP_SIZE + PAGE_SIZE - 1) / PAGE_SIZE;
    let mapped = heap.grow(fa, mapper, num_pages);
    proof {
        assert(num_pages == 1024);
        assert(heap.spec_end() == HEAP_START + mapped * 4096);
        assert forall|k: int|
            0 <= k * PAGE_SIZE < heap.mapped_bytes() implies page_freshly_backed(
            *mapper,
            pre_fa,
            *fa,
            #[trigger] window_page(HEAP_START, k),
        ) by {
            assert(k < mapped);
            assert(page_freshly_backed(*mapper, pre_fa, *fa, window_page(HEAP_START, k)));
        }
        assert forall|k1: int, k2: int|
            0 <= k1 < k2 && k2 * PAGE_SIZE < heap.mapped_bytes() implies backing_frame(
            *mapper,
            #[trigger] window_page(HEAP_START, k1),
        ) != backing_frame(*mapper, #[trigger] window_page(HEAP_START, k2)) by {
            assert(k2 < mapped);
            assert(backing_frame(*mapper, window_page(HEAP_START, k1)) != backing_frame(
                *mapper,
                window_page(HEAP_START, k2),
            ));
        }
    }
    mapped == num_pages
}

/// Current mapped byte count of the heap window.
pub fn heap_size(heap: &KernelHeap) -> (r: usize)
    requires
        heap.wf(),
    ensures
        r == heap.mapped_bytes(),
{
    heap.heap_size()
}

} // verus!
