//! The bump strategy: a monotonically increasing cursor with a live-allocation
//! counter. Individual blocks are never reclaimed; when the last live
//! allocation is freed the cursor resets to the start of the heap.

use crate::allocator::{align_up_spec, blocks_overlap, lemma_align_up, AllocError};
use vstd::prelude::*;

verus! {

/// Bump allocator state. The ghost `live` set records the live allocations so
/// that their disjointness is part of the allocator's invariant.
pub struct BumpAllocator {
    pub heap_start: usize,
    pub heap_end: usize,
    pub next: usize,
    pub allocations: usize,
    pub live: Ghost<Set<(int, int)>>,
}

/// After allocating any number of blocks and freeing all of them, in any
/// order, the cursor stands exactly at the start of the heap again: a zero
/// live-allocation count forces the cursor back to `heap_start`, and every
/// operation preserves this invariant.
pub proof fn lemma_cursor_resets_when_empty(a: BumpAllocator)
    requires
        a.wf(),
        a.allocations == 0,
    ensures
        a.next == a.heap_start,
{
}

/// At no point do two live allocations overlap: in every reachable state
/// of the bump allocator — `allocate` and `deallocate` both preserve the
/// invariant — two distinct live allocations are disjoint in address range.
pub proof fn lemma_live_allocations_disjoint(s: BumpAllocator, b1: (int, int), b2: (int, int))
    requires
        s.wf(),
        s.live@.contains(b1),
        s.live@.contains(b2),
        b1 != b2,
    ensures
        !blocks_overlap(b1, b2),
{
}

impl BumpAllocator {
    /// Well-formedness: the cursor stays inside the heap, the counter matches
    /// the number of live allocations, every live allocation lies below the
    /// cursor, no two live allocations overlap, and a zero counter means the
    /// cursor sits at the start of the heap.
    pub open spec fn wf(&self) -> bool {
        &&& self.heap_start <= self.next <= self.heap_end
        &&& self.allocations == 0 ==> self.next == self.heap_start
        &&& self.live@.finite()
        &&& self.live@.len() == self.allocations
        &&& forall|b: (int, int)|
            self.live@.contains(b) ==> self.heap_start <= b.0 && b.0 + b.1 <= self.next && b.1 > 0
        &&& forall|b1: (int, int), b2: (int, int)|
            self.live@.contains(b1) && self.live@.contains(b2) && b1 != b2 ==> !blocks_overlap(
                b1,
                b2,
            )
    }

    /// An empty allocator over the empty range; `init` installs the heap.
    pub fn new() -> (r: Self)
        ensures
            r.wf(),
            r.heap_start == 0,
            r.heap_end == 0,
            r.next == 0,
            r.allocations == 0,
            r.live@ == Set::<(int, int)>::empty(),
    {
        BumpAllocator {
            heap_start: 0,
            heap_end: 0,
            next: 0,
            allocations: 0,
            live: Ghost(Set::empty()),
        }
    }

    /// Installs the mapped heap range `[heap_start, heap_start + heap_size)`
    /// and resets the cursor and the counter.
    pub fn init(&mut self, heap_start: usize, heap_size: usize)
        requires
            heap_start + heap_size <= usize::MAX,
        ensures
            final(self).wf(),
            final(self).heap_start == heap_start,
            final(self).heap_end == heap_start + heap_size,
            final(self).next == heap_start,
            final(self).allocations == 0,
            final(self).live@ == Set::<(int, int)>::empty(),
    {
        self.heap_start = heap_start;
        self.heap_end = heap_start + heap_size;
        self.next = heap_start;
        self.allocations = 0;
        self.live = Ghost(Set::empty());
    }

    /// Rounds the cursor up to `align` and advances it past the new block, or
    /// fails with `OutOfMemory` when the aligned block would pass the end of
    /// the heap. Succeeds exactly when the aligned cursor leaves room for
    /// `size` bytes.
    pub fn allocate(&mut self, size: usize, align: usize) -> (r: Result<usize, AllocError>)
        requires
            old(self).wf(),
            size > 0,
            align > 0,
            old(self).allocations < usize::MAX,
        ensures
            final(self).wf(),
            final(self).heap_start == old(self).heap_start,
            final(self).heap_end == old(self).heap_end,
            r is Ok <==> align_up_spec(old(self).next as int, align as int) + size <= old(
                self,
            ).heap_end,
            r matches Ok(addr) ==> {
                &&& addr == align_up_spec(old(self).next as int, align as int)
                &&& addr as int % align as int == 0
                &&& old(self).heap_start <= addr
                &&& addr + size <= old(self).heap_end
                &&& final(self).next == addr + size
                &&& final(self).allocations == old(self).allocations + 1
                &&& !old(self).live@.contains((addr as int, size as int))
                &&& final(self).live@ == old(self).live@.insert((addr as int, size as int))
            },
            r is Err ==> *final(self) == *old(self),
    {
        proof {
            lemma_align_up(self.next as int, align as int);
        }
        let rem: usize = self.next % align;
        let pad: usize = if rem == 0 {
            0
        } else {
            align - rem
        };
        if pad <= self.heap_end - self.next && size <= self.heap_end - self.next - pad {
            let addr: usize = self.next + pad;
            proof {
                let b = (addr as int, size as int);
                if self.live@.contains(b) {
                    assert(b.0 + b.1 <= self.next);
                }
                vstd::set::axiom_set_insert_finite(self.live@, b);
                vstd::set::axiom_set_insert_len(self.live@, b);
            }
            self.live = Ghost(self.live@.insert((addr as int, size as int)));
            self.next = addr + size;
            self.allocations = self.allocations + 1;
            Ok(addr)
        } else {
            Err(AllocError::OutOfMemory)
        }
    }

    /// Frees one live allocation: the counter drops by one, and when it
    /// reaches zero the cursor returns to the start of the heap (bulk
    /// reclamation; individual blocks are never reused before that point).
    pub fn deallocate(&mut self, ptr: usize, size: usize, _align: usize)
        requires
            old(self).wf(),
            old(self).live@.contains((ptr as int, size as int)),
        ensures
            final(self).wf(),
            final(self).heap_start == old(self).heap_start,
            final(self).heap_end == old(self).heap_end,
            final(self).allocations == old(self).allocations - 1,
            final(self).live@ == old(self).live@.remove((ptr as int, size as int)),
            final(self).allocations == 0 ==> final(self).next == old(self).heap_start,
            final(self).allocations != 0 ==> final(self).next == old(self).next,
    {
        proof {
            vstd::set::axiom_set_contains_len(self.live@, (ptr as int, size as int));
            vstd::set::axiom_set_remove_finite(self.live@, (ptr as int, size as int));
            vstd::set::axiom_set_remove_len(self.live@, (ptr as int, size as int));
        }
        self.live = Ghost(self.live@.remove((ptr as int, size as int)));
        self.allocations = self.allocations - 1;
        if self.allocations == 0 {
            self.next = self.heap_start;
            proof {
                if exists|b: (int, int)| self.live@.contains(b) {
                    let b = choose|b: (int, int)| self.live@.contains(b);
                    vstd::set::axiom_set_contains_len(self.live@, b);
                }
            }
        }
    }
}

} // verus!
