//! The heap-allocation facility: configuration constants, the shared
//! allocate/deallocate contract, and the global heap that dispatches to one of
//! three allocation strategies fixed at initialization time.

use crate::memory::{BootInfoFrameAllocator, KernelPageTable, MapError, PageMapping, PageTableFlags};
use vstd::arithmetic::div_mod::{lemma_fundamental_div_mod, lemma_mod_multiples_basic};
use vstd::arithmetic::power2::{lemma2_to64, lemma_pow2_adds, lemma_pow2_strictly_increases, pow2};
use vstd::prelude::*;

pub mod bump;
pub mod fixed_size;
pub mod linked_list;

verus! {

/// Base virtual address of the kernel heap.
pub const HEAP_START: u64 = 0x4444_4444_0000;

/// Size of the kernel heap in bytes; a multiple of the page size.
pub const HEAP_SIZE: usize = 100 * 1024;

/// Size of one page (and of one physical frame) in bytes.
pub const PAGE_SIZE: usize = 4096;

/// An allocation request could not be satisfied. The caller must handle it;
/// it is never silently treated as success.
#[derive(Clone, Copy, Debug, PartialEq, Eq, Structural)]
pub enum AllocError {
    OutOfMemory,
}

/// A block of memory described by its start address and size, as a pair of
/// mathematical integers `(addr, size)`.
pub open spec fn blocks_overlap(a: (int, int), b: (int, int)) -> bool {
    a.0 < b.0 + b.1 && b.0 < a.0 + a.1
}

/// The least multiple of `align` that is at least `addr`.
pub open spec fn align_up_spec(addr: int, align: int) -> int
    recommends
        align > 0,
{
    if addr % align == 0 {
        addr
    } else {
        addr - addr % align + align
    }
}

pub proof fn lemma_align_up(addr: int, align: int)
    requires
        align > 0,
        addr >= 0,
    ensures
        align_up_spec(addr, align) % align == 0,
        addr <= align_up_spec(addr, align) < addr + align,
{
    let q = addr / align;
    let r = addr % align;
    lemma_fundamental_div_mod(addr, align);
    if r != 0 {
        assert((q + 1) * align == q * align + align) by (nonlinear_arith);
        assert(align * q == q * align) by (nonlinear_arith);
        assert(align_up_spec(addr, align) == (q + 1) * align);
        lemma_mod_multiples_basic(q + 1, align);
    }
}

/// `n` is a power of two. Allocation alignments are powers of two, as the
/// language's layout rules guarantee.
pub open spec fn is_pow2(n: int) -> bool {
    exists|e: nat| n == pow2(e)
}

pub proof fn lemma_pow2_mod_zero(small: int, big: int)
    requires
        is_pow2(small),
        is_pow2(big),
        0 < small <= big,
    ensures
        big % small == 0,
{
    let e1 = choose|e: nat| small == pow2(e);
    let e2 = choose|e: nat| big == pow2(e);
    if e1 > e2 {
        lemma_pow2_strictly_increases(e2, e1);
    } else {
        lemma_pow2_adds(e1, (e2 - e1) as nat);
        lemma_mod_multiples_basic(pow2((e2 - e1) as nat) as int, small);
        assert(pow2(e1) * pow2((e2 - e1) as nat) == pow2((e2 - e1) as nat) * pow2(e1))
            by (nonlinear_arith);
    }
}

/// Every positive number divides itself.
pub proof fn lemma_mod_multiples_one(x: int)
    requires
        x > 0,
    ensures
        x % x == 0,
{
    lemma_mod_multiples_basic(1, x);
}

/// If `m` divides `n` and `n` divides `x`, then `m` divides `x`.
pub proof fn lemma_mod_divides_chain(x: int, m: int, n: int)
    requires
        m > 0,
        n > 0,
        n % m == 0,
        x % n == 0,
    ensures
        x % m == 0,
{
    lemma_fundamental_div_mod(n, m);
    lemma_fundamental_div_mod(x, n);
    let k = n / m;
    let q = x / n;
    assert(x == (m * k) * q);
    assert((m * k) * q == (k * q) * m) by (nonlinear_arith);
    lemma_mod_multiples_basic(k * q, m);
}

/// 8 is a power of two.
pub proof fn lemma_is_pow2_8()
    ensures
        is_pow2(8),
{
    lemma2_to64();
    assert(8 == pow2(3));
}

/// The number of pages of the heap range.
pub open spec fn heap_page_count() -> int {
    HEAP_SIZE as int / PAGE_SIZE as int
}

/// The virtual address of the `i`-th page of the heap range.
pub open spec fn heap_page(i: int) -> int {
    HEAP_START + (PAGE_SIZE as int) * i
}

/// How many frames a source can still hand out.
pub open spec fn remaining_frames(fa: BootInfoFrameAllocator) -> int {
    if fa.next < fa.frames().len() {
        fa.frames().len() - fa.next
    } else {
        0
    }
}

/// The first index in `[i, n)` whose heap page is already mapped in `t`,
/// or `n` when none is.
pub open spec fn first_conflict_from(t: KernelPageTable, i: int, n: int) -> int
    decreases n - i,
{
    if i >= n {
        n
    } else if t.is_mapped(heap_page(i)) {
        i
    } else {
        first_conflict_from(t, i + 1, n)
    }
}

pub proof fn lemma_first_conflict(t: KernelPageTable, i: int, n: int)
    requires
        i <= n,
    ensures
        i <= first_conflict_from(t, i, n) <= n,
        first_conflict_from(t, i, n) < n ==> t.is_mapped(heap_page(first_conflict_from(t, i, n))),
        forall|j: int| i <= j < first_conflict_from(t, i, n) ==> !t.is_mapped(#[trigger] heap_page(j)),
    decreases n - i,
{
    if i < n && !t.is_mapped(heap_page(i)) {
        lemma_first_conflict(t, i + 1, n);
    }
}

/// The page-table entry installed for the `k`-th heap page: the next fresh
/// frame of the source, present and writable.
pub open spec fn planned_heap_entry(fa0: BootInfoFrameAllocator) -> spec_fn(int) -> PageMapping {
    |k: int|
        PageMapping {
            page: heap_page(k) as u64,
            frame: fa0.frames()[fa0.next + k] as u64,
            flags: PageTableFlags { present: true, writable: true },
        }
}

/// Maps every page of the heap range to a freshly obtained frame with
/// present and writable protection, in page order. Fails with `OutOfFrames`
/// when the source runs dry and with `MappingConflict` when a heap page is
/// already mapped — whichever is hit first; mapping is not transactional,
/// so the pages before the failure stay mapped, but the error is surfaced
/// so the boot sequence can abort.
pub fn init_heap(mapper: &mut KernelPageTable, frame_allocator: &mut BootInfoFrameAllocator) -> (r:
    Result<(), MapError>)
    requires
        old(frame_allocator).wf(),
        old(frame_allocator).next + heap_page_count() <= usize::MAX,
    ensures
        final(frame_allocator).wf(),
        final(frame_allocator).regions@ == old(frame_allocator).regions@,
        ({
            let n = heap_page_count();
            let f = remaining_frames(*old(frame_allocator));
            let c = first_conflict_from(*old(mapper), 0, n);
            &&& (r is Ok <==> f >= n && c == n)
            &&& (r == Err::<(), MapError>(MapError::OutOfFrames) <==> f < n && f <= c)
            &&& (r == Err::<(), MapError>(MapError::MappingConflict) <==> c < n && c < f)
            &&& r is Ok ==> {
                &&& final(mapper).mappings@ == old(mapper).mappings@ + Seq::new(
                    n as nat,
                    |k: int|
                        PageMapping {
                            page: heap_page(k) as u64,
                            frame: old(frame_allocator).frames()[old(frame_allocator).next + k]
                                as u64,
                            flags: PageTableFlags { present: true, writable: true },
                        },
                )
                &&& final(frame_allocator).next == old(frame_allocator).next + n
            }
        }),
{
    let ghost m0 = *old(mapper);
    let ghost fa0 = *old(frame_allocator);
    let ghost n = heap_page_count();
    proof {
        lemma_first_conflict(m0, 0, n);
    }
    let ghost c = first_conflict_from(m0, 0, n);
    let ghost entry = planned_heap_entry(fa0);

    let page_total: usize = HEAP_SIZE / PAGE_SIZE;
    let mut i: usize = 0;
    proof {
        assert(mapper.mappings@ =~= m0.mappings@ + Seq::new(0, entry));
    }
    while i < page_total
        invariant
            fa0 == *old(frame_allocator),
            m0 == *old(mapper),
            frame_allocator.wf(),
            frame_allocator.regions@ == fa0.regions@,
            n == heap_page_count(),
            page_total == n,
            i <= n,
            fa0.next + n <= usize::MAX,
            c == first_conflict_from(m0, 0, n),
            frame_allocator.next == fa0.next + i,
            i > 0 ==> fa0.next + i <= fa0.frames().len(),
            forall|j: int| 0 <= j < i ==> !m0.is_mapped(#[trigger] heap_page(j)),
            mapper.mappings@ == m0.mappings@ + Seq::new(i as nat, entry),
            entry == planned_heap_entry(fa0),
        decreases page_total - i,
    {
        proof {
            assert((PAGE_SIZE as int) * (i as int) <= (PAGE_SIZE as int) * heap_page_count())
                by (nonlinear_arith)
                requires
                    0 <= i <= heap_page_count(),
            ;
        }
        let page: u64 = HEAP_START + (PAGE_SIZE as u64) * (i as u64);
        proof {
            assert(page == heap_page(i as int));
        }
        let frame: u64 = match frame_allocator.allocate_frame() {
            Some(frame) => frame,
            None => {
                proof {
                    assert(frame_allocator.frames() == fa0.frames());
                    assert(remaining_frames(fa0) == i);
                    lemma_first_conflict(m0, 0, n);
                    if c < i {
                        assert(!m0.is_mapped(heap_page(c)));
                    }
                    assert(c >= i);
                }
                return Err(MapError::OutOfFrames);
            },
        };
        let ghost m_before = *mapper;
        match mapper.map_to(page, frame, PageTableFlags { present: true, writable: true }) {
            Ok(_) => {},
            Err(_) => {
                proof {
                    // The conflicting entry is an old one: the pages mapped
                    // by this loop are all distinct from this page.
                    assert(m_before.is_mapped(page as int));
                    let idx = choose|idx: int|
                        0 <= idx < m_before.mappings@.len() && (#[trigger] m_before.mappings@[idx]).page
                            == page as int;
                    if idx >= m0.mappings@.len() {
                        let k = idx - m0.mappings@.len();
                        assert(m_before.mappings@[idx] == entry(k));
                        assert((PAGE_SIZE as int) * k != (PAGE_SIZE as int) * (i as int))
                            by (nonlinear_arith)
                            requires
                                0 <= k < i,
                        ;
                        assert(false);
                    }
                    assert(m0.is_mapped(heap_page(i as int)));
                    assert(c == i) by {
                        lemma_first_conflict(m0, 0, n);
                        if c < i {
                            assert(!m0.is_mapped(heap_page(c)));
                        } else if c > i {
                            assert(!m0.is_mapped(heap_page(i as int)));
                        }
                    }
                    assert(remaining_frames(fa0) > i);
                }
                return Err(MapError::MappingConflict);
            },
        }
        proof {
            assert(mapper.mappings@ =~= m0.mappings@ + Seq::new((i + 1) as nat, entry));
            if m0.is_mapped(heap_page(i as int)) {
                let idx = choose|idx: int|
                    0 <= idx < m0.mappings@.len() && (#[trigger] m0.mappings@[idx]).page
                        == heap_page(i as int);
                assert(m_before.mappings@[idx] == m0.mappings@[idx]);
                assert(m_before.is_mapped(page as int));
            }
        }
        i = i + 1;
    }
    proof {
        lemma_first_conflict(m0, 0, n);
        assert(c == n);
        assert(mapper.mappings@ =~= m0.mappings@ + Seq::new(
            n as nat,
            |k: int|
                PageMapping {
                    page: heap_page(k) as u64,
                    frame: fa0.frames()[fa0.next + k] as u64,
                    flags: PageTableFlags { present: true, writable: true },
                },
        ));
    }
    Ok(())
}

/// The allocation strategies the global heap can hold: a closed tagged
/// variant, dispatched at the global-heap boundary and fixed when the heap
/// is initialized.
pub enum Strategy {
    Bump(bump::BumpAllocator),
    LinkedList(linked_list::LinkedListAllocator),
    FixedSize(fixed_size::FixedSizeBlockAllocator),
}

/// Which strategy `GlobalHeap::init` builds.
#[derive(Clone, Copy, Debug, PartialEq, Eq, Structural)]
pub enum StrategyKind {
    Bump,
    LinkedList,
    FixedSize,
}

/// The process-wide heap: uninitialized until the boot sequence installs
/// one allocation strategy over the mapped heap range, then ready for the
/// rest of execution. The embedding program serializes calls through its
/// lock; this type holds the state and the contract.
pub struct GlobalHeap {
    pub strategy: Option<Strategy>,
}

impl GlobalHeap {
    /// The heap has been initialized; only then may allocation be called.
    pub open spec fn is_ready(&self) -> bool {
        self.strategy is Some
    }

    /// The installed strategy's own invariant.
    pub open spec fn wf(&self) -> bool {
        match self.strategy {
            Option::None => true,
            Option::Some(Strategy::Bump(a)) => a.wf(),
            Option::Some(Strategy::LinkedList(a)) => a.inv(),
            Option::Some(Strategy::FixedSize(a)) => a.inv(),
        }
    }

    /// Which strategy is installed.
    pub open spec fn kind(&self) -> StrategyKind
        recommends
            self.is_ready(),
    {
        match self.strategy {
            Option::Some(Strategy::Bump(_)) => StrategyKind::Bump,
            Option::Some(Strategy::LinkedList(_)) => StrategyKind::LinkedList,
            _ => StrategyKind::FixedSize,
        }
    }

    /// Base of the heap range the strategy owns.
    pub open spec fn heap_start(&self) -> int {
        match self.strategy {
            Option::Some(Strategy::Bump(a)) => a.heap_start as int,
            Option::Some(Strategy::LinkedList(a)) => a.heap_start as int,
            Option::Some(Strategy::FixedSize(a)) => a.fallback.heap_start as int,
            Option::None => 0,
        }
    }

    /// End of the heap range the strategy owns.
    pub open spec fn heap_end(&self) -> int {
        match self.strategy {
            Option::Some(Strategy::Bump(a)) => a.heap_end as int,
            Option::Some(Strategy::LinkedList(a)) => a.heap_end as int,
            Option::Some(Strategy::FixedSize(a)) => a.fallback.heap_end as int,
            Option::None => 0,
        }
    }

    /// The live allocations the strategy tracks.
    pub open spec fn live_blocks(&self) -> Set<(int, int)> {
        match self.strategy {
            Option::Some(Strategy::Bump(a)) => a.live@,
            Option::Some(Strategy::LinkedList(a)) => a.live@,
            Option::Some(Strategy::FixedSize(a)) => a.live@,
            Option::None => Set::empty(),
        }
    }

    /// The size of the block that actually backs a request under the
    /// installed strategy.
    pub open spec fn granule(&self, size: int, align: int) -> int {
        match self.strategy {
            Option::Some(Strategy::Bump(_)) => size,
            Option::Some(Strategy::LinkedList(_)) => linked_list::eff_size_spec(size, align),
            _ => fixed_size::granule_spec(size, align),
        }
    }

    /// Whether the installed strategy can serve the request in its current
    /// state: the bump cursor leaves room, the free list holds a fitting
    /// block, or the size class has a node or can refill from the fallback.
    /// `allocate` succeeds exactly on these states.
    pub open spec fn can_satisfy(&self, size: int, align: int) -> bool {
        match self.strategy {
            Option::Some(Strategy::Bump(a)) => align_up_spec(a.next as int, align) + size
                <= a.heap_end,
            Option::Some(Strategy::LinkedList(a)) => exists|i: int|
                0 <= i < a.free_blocks().len() && linked_list::fits(
                    #[trigger] a.free_blocks()[i],
                    linked_list::eff_size_spec(size, align),
                    linked_list::eff_align_spec(align),
                ),
            Option::Some(Strategy::FixedSize(a)) => {
                let c = fixed_size::class_of_spec(size, align);
                if c >= 0 {
                    a.class_view(c).len() > 0 || exists|i: int|
                        0 <= i < a.fallback.free_blocks().len() && linked_list::fits(
                            #[trigger] a.fallback.free_blocks()[i],
                            fixed_size::class_size_spec(c),
                            fixed_size::class_size_spec(c),
                        )
                } else {
                    exists|i: int|
                        0 <= i < a.fallback.free_blocks().len() && linked_list::fits(
                            #[trigger] a.fallback.free_blocks()[i],
                            linked_list::eff_size_spec(size, align),
                            linked_list::eff_align_spec(align),
                        )
                }
            },
            Option::None => false,
        }
    }

    /// A machine limit of the bump strategy: its live-allocation counter
    /// must not wrap.
    pub open spec fn can_allocate(&self) -> bool {
        match self.strategy {
            Option::Some(Strategy::Bump(a)) => a.allocations < usize::MAX,
            _ => true,
        }
    }

    /// What a caller must guarantee to free `[ptr, ptr + size)`: the block
    /// is a live allocation made with the same size and alignment. Freeing
    /// anything else is a caller contract violation the allocator does not
    /// defend against.
    pub open spec fn can_deallocate(&self, ptr: int, size: int, align: int) -> bool {
        &&& self.live_blocks().contains((ptr, self.granule(size, align)))
        &&& match self.strategy {
            Option::Some(Strategy::FixedSize(_)) => fixed_size::class_of_spec(size, align) >= 0
                ==> ptr % fixed_size::class_size_spec(fixed_size::class_of_spec(size, align)) == 0,
            _ => true,
        }
    }

    /// An uninitialized heap: no allocation call is valid yet.
    pub fn new() -> (r: Self)
        ensures
            !r.is_ready(),
            r.wf(),
    {
        GlobalHeap { strategy: None }
    }

    /// Installs the chosen strategy over the mapped heap range
    /// `[heap_start, heap_start + heap_size)`. Called exactly once, by the
    /// boot sequence, after the heap pages are mapped; there is no
    /// transition back.
    pub fn init(&mut self, kind: StrategyKind, heap_start: usize, heap_size: usize)
        requires
            !old(self).is_ready(),
            heap_start % 8 == 0,
            heap_size % 8 == 0,
            heap_size >= 16,
            heap_start + heap_size <= usize::MAX,
        ensures
            final(self).is_ready(),
            final(self).wf(),
            final(self).can_allocate(),
            final(self).kind() == kind,
            final(self).heap_start() == heap_start,
            final(self).heap_end() == heap_start + heap_size,
            final(self).live_blocks() == Set::<(int, int)>::empty(),
    {
        match kind {
            StrategyKind::Bump => {
                let mut a = bump::BumpAllocator::new();
                a.init(heap_start, heap_size);
                self.strategy = Some(Strategy::Bump(a));
            },
            StrategyKind::LinkedList => {
                let mut a = linked_list::LinkedListAllocator::new();
                a.init(heap_start, heap_size);
                self.strategy = Some(Strategy::LinkedList(a));
            },
            StrategyKind::FixedSize => {
                let mut a = fixed_size::FixedSizeBlockAllocator::new();
                a.init(heap_start, heap_size);
                self.strategy = Some(Strategy::FixedSize(a));
            },
        }
    }

    /// Serves an allocation through the installed strategy. On success the
    /// returned address is aligned as requested and the block lies fully
    /// inside the heap range; on failure the heap is unchanged and the
    /// caller must handle `OutOfMemory`.
    pub fn allocate(&mut self, size: usize, align: usize) -> (r: Result<usize, AllocError>)
        requires
            old(self).wf(),
            old(self).is_ready(),
            old(self).can_allocate(),
            size > 0,
            is_pow2(align as int),
            size <= usize::MAX / 4,
            align <= usize::MAX / 4,
        ensures
            final(self).wf(),
            final(self).is_ready(),
            final(self).kind() == old(self).kind(),
            final(self).heap_start() == old(self).heap_start(),
            final(self).heap_end() == old(self).heap_end(),
            r matches Ok(addr) ==> ({
                let g = old(self).granule(size as int, align as int);
                &&& addr as int % align as int == 0
                &&& old(self).heap_start() <= addr
                &&& addr + size <= old(self).heap_end()
                &&& !old(self).live_blocks().contains((addr as int, g))
                &&& final(self).live_blocks() == old(self).live_blocks().insert((addr as int, g))
            }),
            r is Ok <==> old(self).can_satisfy(size as int, align as int),
            r is Err ==> *final(self) == *old(self),
            ({
                match (old(self).strategy, final(self).strategy) {
                    (Option::Some(Strategy::Bump(a0)), Option::Some(Strategy::Bump(a1))) => r
                        matches Ok(addr) ==> {
                        &&& addr == align_up_spec(a0.next as int, align as int)
                        &&& a1.next == addr + size
                        &&& a1.allocations == a0.allocations + 1
                    },
                    (
                        Option::Some(Strategy::LinkedList(a0)),
                        Option::Some(Strategy::LinkedList(a1)),
                    ) => r matches Ok(addr) ==> (exists|i: int|
                        {
                            &&& 0 <= i < a0.free_blocks().len()
                            &&& linked_list::fits(
                                #[trigger] a0.free_blocks()[i],
                                linked_list::eff_size_spec(size as int, align as int),
                                linked_list::eff_align_spec(align as int),
                            )
                            &&& forall|k: int|
                                0 <= k < i ==> !linked_list::fits(
                                    #[trigger] a0.free_blocks()[k],
                                    linked_list::eff_size_spec(size as int, align as int),
                                    linked_list::eff_align_spec(align as int),
                                )
                            &&& addr == align_up_spec(
                                a0.free_blocks()[i].0,
                                linked_list::eff_align_spec(align as int),
                            )
                            &&& a1.free_blocks() == linked_list::split_result(
                                a0.free_blocks(),
                                i,
                                linked_list::eff_size_spec(size as int, align as int),
                                linked_list::eff_align_spec(align as int),
                            )
                        }),
                    (
                        Option::Some(Strategy::FixedSize(a0)),
                        Option::Some(Strategy::FixedSize(a1)),
                    ) => {
                        let c = fixed_size::class_of_spec(size as int, align as int);
                        (c >= 0 && a0.class_view(c).len() > 0) ==> {
                            &&& r == Ok::<usize, AllocError>(a0.class_lists@[c]@.last())
                            &&& a1.class_view(c) == a0.class_view(c).drop_last()
                            &&& a1.fallback == a0.fallback
                        }
                    },
                    _ => false,
                }
            }),
    {
        proof {
            let e = choose|e: nat| align as int == pow2(e);
            vstd::arithmetic::power2::lemma_pow2_pos(e);
        }
        match &mut self.strategy {
            Some(Strategy::Bump(a)) => a.allocate(size, align),
            Some(Strategy::LinkedList(a)) => a.allocate(size, align),
            Some(Strategy::FixedSize(a)) => a.allocate(size, align),
            None => Err(AllocError::OutOfMemory),
        }
    }

    /// Returns a block to the installed strategy. The block must be a live
    /// allocation made with the same size and alignment.
    pub fn deallocate(&mut self, ptr: usize, size: usize, align: usize)
        requires
            old(self).wf(),
            old(self).is_ready(),
            size > 0,
            is_pow2(align as int),
            size <= usize::MAX / 4,
            align <= usize::MAX / 4,
            old(self).can_deallocate(ptr as int, size as int, align as int),
        ensures
            final(self).wf(),
            final(self).is_ready(),
            final(self).kind() == old(self).kind(),
            final(self).heap_start() == old(self).heap_start(),
            final(self).heap_end() == old(self).heap_end(),
            final(self).live_blocks() == old(self).live_blocks().remove(
                (ptr as int, old(self).granule(size as int, align as int)),
            ),
            ({
                match (old(self).strategy, final(self).strategy) {
                    (Option::Some(Strategy::Bump(a0)), Option::Some(Strategy::Bump(a1))) => {
                        &&& a1.allocations == a0.allocations - 1
                        &&& (a1.allocations == 0 ==> a1.next == a0.heap_start)
                        &&& (a1.allocations != 0 ==> a1.next == a0.next)
                    },
                    (
                        Option::Some(Strategy::LinkedList(a0)),
                        Option::Some(Strategy::LinkedList(a1)),
                    ) => a1.free_blocks() == linked_list::coalesce_result(
                        a0.free_blocks(),
                        ptr as int,
                        linked_list::eff_size_spec(size as int, align as int),
                    ),
                    (
                        Option::Some(Strategy::FixedSize(a0)),
                        Option::Some(Strategy::FixedSize(a1)),
                    ) => {
                        let c = fixed_size::class_of_spec(size as int, align as int);
                        if c >= 0 {
                            a1.class_view(c) == a0.class_view(c).push(ptr as int) && a1.fallback
                                == a0.fallback
                        } else {
                            a1.fallback.free_blocks() == linked_list::coalesce_result(
                                a0.fallback.free_blocks(),
                                ptr as int,
                                linked_list::eff_size_spec(size as int, align as int),
                            )
                        }
                    },
                    _ => false,
                }
            }),
    {
        match &mut self.strategy {
            Some(Strategy::Bump(a)) => a.deallocate(ptr, size, align),
            Some(Strategy::LinkedList(a)) => a.deallocate(ptr, size, align),
            Some(Strategy::FixedSize(a)) => a.deallocate(ptr, size, align),
            None => {},
        }
    }
}

/// At no point do two live allocations overlap, whichever strategy the
/// heap was initialized with: every operation preserves the strategy's
/// invariant, and under it two distinct live allocations are disjoint in
/// address range.
pub proof fn lemma_live_allocations_disjoint(h: GlobalHeap, b1: (int, int), b2: (int, int))
    requires
        h.wf(),
        h.live_blocks().contains(b1),
        h.live_blocks().contains(b2),
        b1 != b2,
    ensures
        !blocks_overlap(b1, b2),
{
    match h.strategy {
        Option::Some(Strategy::Bump(a)) => bump::lemma_live_allocations_disjoint(a, b1, b2),
        Option::Some(Strategy::LinkedList(a)) => linked_list::lemma_live_allocations_disjoint(
            a,
            b1,
            b2,
        ),
        Option::Some(Strategy::FixedSize(a)) => fixed_size::lemma_live_allocations_disjoint(
            a,
            b1,
            b2,
        ),
        Option::None => {},
    }
}

/// Rounds `addr` up to the next multiple of `align`.
pub fn align_up(addr: usize, align: usize) -> (r: usize)
    requires
        align > 0,
        addr + align <= usize::MAX,
    ensures
        r == align_up_spec(addr as int, align as int),
        r as int % align as int == 0,
        addr <= r < addr + align,
{
    proof {
        lemma_align_up(addr as int, align as int);
        vstd::arithmetic::div_mod::lemma_mod_decreases(addr as nat, align as nat);
    }
    let rem: usize = addr % align;

    if rem == 0 {
        return addr;
    }
    addr - rem + align
}

} // verus!
