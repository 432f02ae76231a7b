//! Physical-frame bookkeeping and the page-table view used to bootstrap the
//! heap. The firmware memory map is modeled as a sequence of usable regions;
//! frames are identified by their page-aligned start address. The page-table
//! mapping primitive works on a table of page-to-frame entries; the embedding
//! program installs the planned entries into the hardware tables.

use crate::allocator::PAGE_SIZE;
use vstd::prelude::*;

verus! {

/// A physical address range `[start, end)` that the firmware marks usable.
/// Both bounds are page-aligned.
#[derive(Clone, Copy, Debug, PartialEq, Eq, Structural)]
pub struct UsableRegion {
    pub start: u64,
    pub end: u64,
}

impl UsableRegion {
    /// Bounds are page-aligned and ordered.
    pub open spec fn wf(self) -> bool {
        &&& self.start % (PAGE_SIZE as u64) == 0
        &&& self.end % (PAGE_SIZE as u64) == 0
        &&& self.start <= self.end
    }

    /// How many whole frames the region holds.
    pub open spec fn frame_count(self) -> int {
        (self.end - self.start) / (PAGE_SIZE as int)
    }

    /// The start address of the `k`-th frame of this region.
    pub open spec fn frame(self, k: int) -> int {
        self.start + (PAGE_SIZE as int) * k
    }
}

/// The start addresses of every frame of every region, region by region.
pub open spec fn frame_seq(regions: Seq<UsableRegion>) -> Seq<int>
    decreases regions.len(),
{
    if regions.len() == 0 {
        Seq::empty()
    } else {
        Seq::new(regions[0].frame_count() as nat, |k: int| regions[0].frame(k)) + frame_seq(
            regions.drop_first(),
        )
    }
}

/// Hands out physical page frames from the firmware memory map, each at most
/// once: a monotonic cursor walks the flattened sequence of usable frames.
pub struct BootInfoFrameAllocator {
    pub regions: Vec<UsableRegion>,
    pub next: usize,
}

impl BootInfoFrameAllocator {
    /// The regions are page-aligned, ordered by address and disjoint, so the
    /// flattened frame sequence is strictly increasing.
    pub open spec fn wf(&self) -> bool {
        &&& forall|i: int| 0 <= i < self.regions@.len() ==> (#[trigger] self.regions@[i]).wf()
        &&& forall|i: int, j: int|
            0 <= i < j < self.regions@.len() ==> (#[trigger] self.regions@[i]).end <= (
            #[trigger] self.regions@[j]).start
    }

    /// The frames this source walks, in the order it hands them out.
    pub open spec fn frames(&self) -> Seq<int> {
        frame_seq(self.regions@)
    }

    /// Builds a source over the usable regions of the firmware memory map.
    /// The caller vouches that the regions describe real, unused memory.
    pub fn init(regions: Vec<UsableRegion>) -> (r: Self)
        requires
            forall|i: int| 0 <= i < regions@.len() ==> (#[trigger] regions@[i]).wf(),
            forall|i: int, j: int|
                0 <= i < j < regions@.len() ==> (#[trigger] regions@[i]).end <= (
                #[trigger] regions@[j]).start,
        ensures
            r.wf(),
            r.regions@ == regions@,
            r.next == 0,
    {
        BootInfoFrameAllocator { regions, next: 0 }
    }

    /// Returns the frame the cursor points at, if any, and advances the
    /// cursor. Each frame is returned at most once over the lifetime of one
    /// source.
    pub fn allocate_frame(&mut self) -> (r: Option<u64>)
        requires
            old(self).wf(),
            old(self).next < usize::MAX,
        ensures
            final(self).wf(),
            final(self).regions@ == old(self).regions@,
            final(self).next == old(self).next + 1,
            old(self).next < old(self).frames().len() ==> r == Some(
                old(self).frames()[old(self).next as int] as u64,
            ),
            old(self).next >= old(self).frames().len() ==> r is None,
    {
        let frame = self.nth_usable_frame(self.next);
        self.next = self.next + 1;
        frame
    }

    /// The `n`-th frame of the flattened usable-frame sequence, re-derived
    /// from the regions on every call.
    pub fn nth_usable_frame(&self, n: usize) -> (r: Option<u64>)
        requires
            self.wf(),
        ensures
            n < self.frames().len() ==> r == Some(self.frames()[n as int] as u64),
            n >= self.frames().len() ==> r is None,
    {
        let mut i: usize = 0;
        let mut rem: usize = n;
        proof {
            assert(self.regions@.skip(0) =~= self.regions@);
        }
        while i < self.regions.len()
            invariant
                self.wf(),
                i <= self.regions@.len(),
                rem <= n,
                frame_seq(self.regions@).len() - frame_seq(self.regions@.skip(i as int)).len()
                    == n - rem,
                n < frame_seq(self.regions@).len() <==> rem < frame_seq(
                    self.regions@.skip(i as int),
                ).len(),
                n < frame_seq(self.regions@).len() ==> frame_seq(self.regions@)[n as int]
                    == frame_seq(self.regions@.skip(i as int))[rem as int],
            decreases self.regions@.len() - i,
        {
            proof {
                assert(self.regions@.skip(i as int).drop_first() =~= self.regions@.skip(
                    i as int + 1,
                ));
                assert(self.regions@.skip(i as int)[0] == self.regions@[i as int]);
            }
            let region = self.regions[i];
            let count_u64: u64 = (region.end - region.start) / (PAGE_SIZE as u64);
            if (rem as u64) < count_u64 {
                let frame: u64 = region.start + (PAGE_SIZE as u64) * (rem as u64);
                return Some(frame);
            }
            rem = rem - (count_u64 as usize);
            i = i + 1;
        }
        proof {
            assert(self.regions@.skip(self.regions@.len() as int) =~= Seq::<
                UsableRegion,
            >::empty());
        }
        None
    }
}

/// Every frame of the flattened sequence of well-formed regions lies at or
/// above `b` when every region starts at or above `b`.
proof fn lemma_frame_seq_min(regions: Seq<UsableRegion>, b: int)
    requires
        forall|i: int| 0 <= i < regions.len() ==> (#[trigger] regions[i]).wf(),
        forall|i: int| 0 <= i < regions.len() ==> (#[trigger] regions[i]).start >= b,
    ensures
        forall|k: int| 0 <= k < frame_seq(regions).len() ==> #[trigger] frame_seq(regions)[k] >= b,
    decreases regions.len(),
{
    if regions.len() > 0 {
        let r0 = regions[0];
        let c0 = r0.frame_count();
        assert(forall|i: int|
            0 <= i < regions.drop_first().len() ==> #[trigger] regions.drop_first()[i]
                == regions[i + 1]);
        lemma_frame_seq_min(regions.drop_first(), b);
        assert forall|k: int| 0 <= k < frame_seq(regions).len() implies #[trigger] frame_seq(
            regions,
        )[k] >= b by {
            if k < c0 {
                assert(frame_seq(regions)[k] == r0.start + (PAGE_SIZE as int) * k);
                assert((PAGE_SIZE as int) * k >= 0) by (nonlinear_arith)
                    requires
                        k >= 0,
                ;
            } else {
                assert(frame_seq(regions)[k] == frame_seq(regions.drop_first())[k - c0]);
            }
        }
    }
}

/// The flattened usable-frame sequence of a well-formed source is strictly
/// increasing: together with the monotonic cursor this means one source
/// never hands out the same frame twice.
pub proof fn lemma_frames_distinct(fa: BootInfoFrameAllocator, i: int, j: int)
    requires
        fa.wf(),
        0 <= i < j < fa.frames().len(),
    ensures
        fa.frames()[i] < fa.frames()[j],
{
    lemma_frame_seq_increasing(fa.regions@, i, j);
}

/// The flattened frame sequence of sorted, disjoint, well-formed regions is
/// strictly increasing.
proof fn lemma_frame_seq_increasing(regions: Seq<UsableRegion>, i: int, j: int)
    requires
        forall|k: int| 0 <= k < regions.len() ==> (#[trigger] regions[k]).wf(),
        forall|k1: int, k2: int|
            0 <= k1 < k2 < regions.len() ==> (#[trigger] regions[k1]).end <= (
            #[trigger] regions[k2]).start,
        0 <= i < j < frame_seq(regions).len(),
    ensures
        frame_seq(regions)[i] < frame_seq(regions)[j],
    decreases regions.len(),
{
    let r0 = regions[0];
    let c0 = r0.frame_count();
    let rest = regions.drop_first();
    assert(forall|k: int| 0 <= k < rest.len() ==> #[trigger] rest[k] == regions[k + 1]);
    // Frames of the first region run strictly upward and stay below its
    // end; all later frames start at or above that end.
    assert((PAGE_SIZE as int) * c0 <= r0.end - r0.start) by {
        vstd::arithmetic::div_mod::lemma_fundamental_div_mod(r0.end - r0.start, PAGE_SIZE as int);
        assert((r0.end - r0.start) % (PAGE_SIZE as int) == 0) by {
            vstd::arithmetic::div_mod::lemma_sub_mod_noop(
                r0.end as int,
                r0.start as int,
                PAGE_SIZE as int,
            );
        }
    }
    if j < c0 {
        assert((PAGE_SIZE as int) * i < (PAGE_SIZE as int) * j) by (nonlinear_arith)
            requires
                0 <= i < j,
        ;
        assert(frame_seq(regions)[i] == r0.frame(i));
        assert(frame_seq(regions)[j] == r0.frame(j));
    } else if i < c0 {
        assert(frame_seq(regions)[i] == r0.frame(i));
        assert(frame_seq(regions)[j] == frame_seq(rest)[j - c0]);
        assert((PAGE_SIZE as int) * i < (PAGE_SIZE as int) * c0) by (nonlinear_arith)
            requires
                0 <= i < c0,
        ;
        lemma_frame_seq_min(rest, r0.end as int);
    } else {
        assert(frame_seq(regions)[i] == frame_seq(rest)[i - c0]);
        assert(frame_seq(regions)[j] == frame_seq(rest)[j - c0]);
        lemma_frame_seq_increasing(rest, i - c0, j - c0);
    }
}

/// A frame source that is always exhausted.
pub struct EmptyFrameAllocator;

impl EmptyFrameAllocator {
    /// Never yields a frame.
    pub fn allocate_frame(&mut self) -> (r: Option<u64>)
        ensures
            r is None,
    {
        None
    }
}

/// Access protection of one page mapping.
#[derive(Clone, Copy, Debug, PartialEq, Eq, Structural)]
pub struct PageTableFlags {
    pub present: bool,
    pub writable: bool,
}

/// One installed page-to-frame mapping.
#[derive(Clone, Copy, Debug, PartialEq, Eq, Structural)]
pub struct PageMapping {
    pub page: u64,
    pub frame: u64,
    pub flags: PageTableFlags,
}

/// Why installing a mapping, or mapping the heap, failed. Both are fatal to
/// boot: the error propagates so the boot sequence can abort cleanly.
#[derive(Clone, Copy, Debug, PartialEq, Eq, Structural)]
pub enum MapError {
    /// The physical-frame source ran out of usable frames.
    OutOfFrames,
    /// A page of the range was already mapped.
    MappingConflict,
}

/// The page-table view the heap bootstrap works on: the list of mappings
/// installed so far, in installation order. The embedding program replays
/// these entries into the hardware page tables.
pub struct KernelPageTable {
    pub mappings: Vec<PageMapping>,
}

impl KernelPageTable {
    /// The page `page` has a mapping installed.
    pub open spec fn is_mapped(&self, page: int) -> bool {
        exists|i: int| 0 <= i < self.mappings@.len() && (#[trigger] self.mappings@[i]).page == page
    }

    /// An empty table: nothing mapped yet.
    pub fn new() -> (r: Self)
        ensures
            r.mappings@.len() == 0,
    {
        KernelPageTable { mappings: Vec::new() }
    }

    /// Installs a single page-to-frame mapping with the given flags, failing
    /// when the page is already mapped.
    pub fn map_to(&mut self, page: u64, frame: u64, flags: PageTableFlags) -> (r: Result<
        (),
        MapError,
    >)
        ensures
            r is Ok <==> !old(self).is_mapped(page as int),
            r is Ok ==> final(self).mappings@ == old(self).mappings@.push(
                PageMapping { page, frame, flags },
            ),
            r is Err ==> r == Err::<(), MapError>(MapError::MappingConflict) && *final(self)
                == *old(self),
    {
        let mut i: usize = 0;
        while i < self.mappings.len()
            invariant
                i <= self.mappings@.len(),
                forall|j: int| 0 <= j < i ==> (#[trigger] self.mappings@[j]).page != page,
            decreases self.mappings@.len() - i,
        {
            if self.mappings[i].page == page {
                return Err(MapError::MappingConflict);
            }
            i = i + 1;
        }
        self.mappings.push(PageMapping { page, frame, flags });
        Ok(())
    }
}

} // verus!
