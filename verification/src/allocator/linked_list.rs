//! The first-fit free-list strategy with adjacent-block coalescing.
//!
//! The free list is kept as a sequence of block descriptors `{addr, size}`
//! (the arena form of the intrusive list whose headers live inside the free
//! memory itself; writing headers at those addresses is the embedding
//! program's one unsafe duty). Blocks are scanned in insertion order, split
//! on allocation, and merged with both address-adjacent neighbours on
//! deallocation, so no two tracked free blocks are ever adjacent.

use crate::allocator::{
    align_up_spec, blocks_overlap, is_pow2, lemma_align_up, lemma_is_pow2_8,
    lemma_mod_divides_chain, lemma_mod_multiples_one, lemma_pow2_mod_zero, AllocError,
};
use vstd::arithmetic::power2::pow2;
use vstd::prelude::*;

verus! {

/// Minimum size of a tracked free block: the bytes a block header occupies
/// inside the free memory it describes. A fragment smaller than this is
/// wasted padding, never tracked.
pub const MIN_BLOCK_SIZE: usize = 16;

/// Minimum alignment of every tracked block.
pub const BLOCK_ALIGN: usize = 8;

/// A free region of the heap: its start address and size in bytes.
#[derive(Clone, Copy, Debug, PartialEq, Eq, Structural)]
pub struct FreeBlock {
    pub addr: usize,
    pub size: usize,
}

/// A block descriptor as a pair of mathematical integers.
pub open spec fn blk(b: FreeBlock) -> (int, int) {
    (b.addr as int, b.size as int)
}

/// The alignment actually used for a request: at least the block alignment.
pub open spec fn eff_align_spec(align: int) -> int {
    if align < 8 {
        8
    } else {
        align
    }
}

/// The size actually carved out for a request: rounded up to the effective
/// alignment and to the minimum block size, so every block and every
/// remainder keeps the block alignment.
pub open spec fn eff_size_spec(size: int, align: int) -> int {
    let s = align_up_spec(size, eff_align_spec(align));
    if s < 16 {
        16
    } else {
        s
    }
}

/// Block `b` can serve a request of effective size `es` and effective
/// alignment `ea`: after aligning its start upward there is still room.
pub open spec fn fits(b: (int, int), es: int, ea: int) -> bool {
    align_up_spec(b.0, ea) + es <= b.0 + b.1
}

/// What is left of block `b` after carving an aligned request out of it:
/// the alignment padding at its front and the excess past the request, each
/// kept as a block of its own when at least the minimum block size, wasted
/// otherwise.
pub open spec fn split_pieces(b: (int, int), es: int, ea: int) -> Seq<(int, int)> {
    let astart = align_up_spec(b.0, ea);
    let front = astart - b.0;
    let tail = b.0 + b.1 - (astart + es);
    let fp: Seq<(int, int)> = if front >= 16 {
        seq![(b.0, front)]
    } else {
        seq![]
    };
    let tp: Seq<(int, int)> = if tail >= 16 {
        seq![(astart + es, tail)]
    } else {
        seq![]
    };
    fp + tp
}

/// The free list after serving a request from its `i`-th block: the kept
/// remainders stand at the front, the other blocks keep their order.
pub open spec fn split_result(s: Seq<(int, int)>, i: int, es: int, ea: int) -> Seq<(int, int)> {
    split_pieces(s[i], es, ea) + s.remove(i)
}

/// The index of the first block of `s` that ends at address `a`, or -1.
pub open spec fn find_end_at(s: Seq<(int, int)>, a: int) -> int
    decreases s.len(),
{
    if s.len() == 0 {
        -1
    } else if s[0].0 + s[0].1 == a {
        0
    } else {
        let r = find_end_at(s.drop_first(), a);
        if r < 0 {
            -1
        } else {
            r + 1
        }
    }
}

/// The index of the first block of `s` that starts at address `e`, or -1.
pub open spec fn find_start_at(s: Seq<(int, int)>, e: int) -> int
    decreases s.len(),
{
    if s.len() == 0 {
        -1
    } else if s[0].0 == e {
        0
    } else {
        let r = find_start_at(s.drop_first(), e);
        if r < 0 {
            -1
        } else {
            r + 1
        }
    }
}

pub proof fn lemma_find_end_at(s: Seq<(int, int)>, a: int)
    ensures
        find_end_at(s, a) == -1 ==> forall|k: int|
            0 <= k < s.len() ==> (#[trigger] s[k]).0 + s[k].1 != a,
        find_end_at(s, a) >= 0 ==> {
            let r = find_end_at(s, a);
            &&& r < s.len()
            &&& s[r].0 + s[r].1 == a
            &&& forall|k: int| 0 <= k < r ==> (#[trigger] s[k]).0 + s[k].1 != a
        },
    decreases s.len(),
{
    if s.len() > 0 && s[0].0 + s[0].1 != a {
        lemma_find_end_at(s.drop_first(), a);
        assert(forall|k: int|
            1 <= k < s.len() ==> #[trigger] s[k] == s.drop_first()[k - 1]);
    }
}

pub proof fn lemma_find_start_at(s: Seq<(int, int)>, e: int)
    ensures
        find_start_at(s, e) == -1 ==> forall|k: int|
            0 <= k < s.len() ==> (#[trigger] s[k]).0 != e,
        find_start_at(s, e) >= 0 ==> {
            let r = find_start_at(s, e);
            &&& r < s.len()
            &&& s[r].0 == e
            &&& forall|k: int| 0 <= k < r ==> (#[trigger] s[k]).0 != e
        },
    decreases s.len(),
{
    if s.len() > 0 && s[0].0 != e {
        lemma_find_start_at(s.drop_first(), e);
        assert(forall|k: int|
            1 <= k < s.len() ==> #[trigger] s[k] == s.drop_first()[k - 1]);
    }
}

/// The free list after returning the block `[a, a + sz)` to it: the block is
/// merged with the blocks that end at its start and start at its end, if
/// such blocks exist, and the merged block stands at the front of the list.
pub open spec fn coalesce_result(s: Seq<(int, int)>, a: int, sz: int) -> Seq<(int, int)> {
    let l = find_end_at(s, a);
    let r = find_start_at(s, a + sz);
    let start = if l >= 0 {
        s[l].0
    } else {
        a
    };
    let end = if r >= 0 {
        s[r].0 + s[r].1
    } else {
        a + sz
    };
    let rest = if l >= 0 && r >= 0 {
        if l < r {
            s.remove(r).remove(l)
        } else {
            s.remove(l).remove(r)
        }
    } else if l >= 0 {
        s.remove(l)
    } else if r >= 0 {
        s.remove(r)
    } else {
        s
    };
    rest.insert(0, (start, end - start))
}

/// First-fit free-list allocator state. The ghost `live` set records the
/// blocks handed out and not yet returned, with their effective sizes.
pub struct LinkedListAllocator {
    pub heap_start: usize,
    pub heap_end: usize,
    pub free: Vec<FreeBlock>,
    pub live: Ghost<Set<(int, int)>>,
}

impl LinkedListAllocator {
    /// The free blocks as a sequence of `(addr, size)` pairs, in list order.
    pub open spec fn free_blocks(&self) -> Seq<(int, int)> {
        Seq::new(self.free@.len(), |i: int| blk(self.free@[i]))
    }

    /// A block lies inside the heap, is at least the minimum block size, and
    /// keeps the block alignment in address and size.
    pub open spec fn block_wf(&self, b: (int, int)) -> bool {
        &&& self.heap_start <= b.0
        &&& b.0 + b.1 <= self.heap_end
        &&& b.1 >= 16
        &&& b.0 % 8 == 0
        &&& b.1 % 8 == 0
    }

    /// Every free block is well-formed.
    pub open spec fn free_wf(&self) -> bool {
        forall|i: int|
            0 <= i < self.free_blocks().len() ==> self.block_wf(#[trigger] self.free_blocks()[i])
    }

    /// Free blocks are pairwise disjoint and never adjacent: coalescing
    /// leaves no two touching blocks behind.
    pub open spec fn free_disjoint(&self) -> bool {
        forall|i: int, j: int|
            0 <= i < j < self.free_blocks().len() ==> {
                &&& !blocks_overlap(
                    #[trigger] self.free_blocks()[i],
                    #[trigger] self.free_blocks()[j],
                )
                &&& self.free_blocks()[i].0 + self.free_blocks()[i].1 != self.free_blocks()[j].0
                &&& self.free_blocks()[j].0 + self.free_blocks()[j].1 != self.free_blocks()[i].0
            }
    }

    /// Live allocations are well-formed, pairwise disjoint, and disjoint
    /// from every free block.
    pub open spec fn live_wf(&self) -> bool {
        &&& self.live@.finite()
        &&& forall|b: (int, int)| #[trigger] self.live@.contains(b) ==> self.block_wf(b)
        &&& forall|b1: (int, int), b2: (int, int)|
            #![trigger self.live@.contains(b1), self.live@.contains(b2)]
            self.live@.contains(b1) && self.live@.contains(b2) && b1 != b2 ==> !blocks_overlap(
                b1,
                b2,
            )
        &&& forall|b: (int, int), i: int|
            #![trigger self.live@.contains(b), self.free_blocks()[i]]
            self.live@.contains(b) && 0 <= i < self.free_blocks().len() ==> !blocks_overlap(
                b,
                self.free_blocks()[i],
            )
    }

    /// The allocator invariant: at no point do two live allocations overlap,
    /// and the free list is a well-formed, disjoint, fully coalesced cover
    /// of (part of) the heap.
    pub open spec fn inv(&self) -> bool {
        &&& self.heap_start <= self.heap_end
        &&& self.free_wf()
        &&& self.free_disjoint()
        &&& self.live_wf()
    }

    /// An allocator over the empty range; `init` installs the heap.
    pub fn new() -> (r: Self)
        ensures
            r.inv(),
            r.heap_start == 0,
            r.heap_end == 0,
            r.free_blocks() == Seq::<(int, int)>::empty(),
            r.live@ == Set::<(int, int)>::empty(),
    {
        let r = LinkedListAllocator {
            heap_start: 0,
            heap_end: 0,
            free: Vec::new(),
            live: Ghost(Set::empty()),
        };
        proof {
            assert(r.free_blocks() =~= Seq::<(int, int)>::empty());
        }
        r
    }

    /// Installs the mapped heap range: the whole range becomes one free
    /// block.
    pub fn init(&mut self, heap_start: usize, heap_size: usize)
        requires
            heap_start % 8 == 0,
            heap_size % 8 == 0,
            heap_size >= MIN_BLOCK_SIZE,
            heap_start + heap_size <= usize::MAX,
        ensures
            final(self).inv(),
            final(self).heap_start == heap_start,
            final(self).heap_end == heap_start + heap_size,
            final(self).free_blocks() == seq![(heap_start as int, heap_size as int)],
            final(self).live@ == Set::<(int, int)>::empty(),
    {
        let mut free: Vec<FreeBlock> = Vec::new();
        free.push(FreeBlock { addr: heap_start, size: heap_size });
        self.heap_start = heap_start;
        self.heap_end = heap_start + heap_size;
        self.free = free;
        self.live = Ghost(Set::empty());
        proof {
            assert(self.free_blocks() =~= seq![(heap_start as int, heap_size as int)]);
        }
    }

    /// Scans the free list in order for the first block that can serve the
    /// request (first fit), removes it, and keeps the block's alignment
    /// padding and excess as new free blocks at the list front when they are
    /// large enough to host a block. Fails with `OutOfMemory`, leaving the
    /// allocator unchanged, exactly when no block fits.
    pub fn allocate(&mut self, size: usize, align: usize) -> (r: Result<usize, AllocError>)
        requires
            old(self).inv(),
            size > 0,
            is_pow2(align as int),
            size <= usize::MAX / 4,
            align <= usize::MAX / 4,
        ensures
            final(self).inv(),
            final(self).heap_start == old(self).heap_start,
            final(self).heap_end == old(self).heap_end,
            r is Ok <==> exists|i: int|
                0 <= i < old(self).free_blocks().len() && fits(
                    #[trigger] old(self).free_blocks()[i],
                    eff_size_spec(size as int, align as int),
                    eff_align_spec(align as int),
                ),
            r is Err ==> *final(self) == *old(self),
            r matches Ok(addr) ==> {
                let es = eff_size_spec(size as int, align as int);
                let ea = eff_align_spec(align as int);
                exists|i: int|
                    {
                        &&& 0 <= i < old(self).free_blocks().len()
                        &&& fits(#[trigger] old(self).free_blocks()[i], es, ea)
                        &&& forall|k: int|
                            0 <= k < i ==> !fits(#[trigger] old(self).free_blocks()[k], es, ea)
                        &&& addr == align_up_spec(old(self).free_blocks()[i].0, ea)
                        &&& final(self).free_blocks() == split_result(
                            old(self).free_blocks(),
                            i,
                            es,
                            ea,
                        )
                    }
            },
            r matches Ok(addr) ==> {
                let es = eff_size_spec(size as int, align as int);
                &&& addr as int % align as int == 0
                &&& old(self).heap_start <= addr
                &&& addr + size <= addr + es <= old(self).heap_end
                &&& !old(self).live@.contains((addr as int, es))
                &&& final(self).live@ == old(self).live@.insert((addr as int, es))
            },
    {
        let ghost es = eff_size_spec(size as int, align as int);
        let ghost ea_g = eff_align_spec(align as int);
        let (ea, esz): (usize, usize) = effective_layout(size, align);

        let mut j: usize = 0;
        while j < self.free.len()
            invariant
                self.inv(),
                *self == *old(self),
                j <= self.free@.len(),
                size > 0,
                is_pow2(align as int),
                size <= usize::MAX / 4,
                align <= usize::MAX / 4,
                ea == eff_align_spec(align as int),
                esz == eff_size_spec(size as int, align as int),
                es == esz,
                ea_g == ea,
                ea >= 8,
                esz >= 16,
                esz >= size,
                esz <= usize::MAX / 2,
                esz as int % ea as int == 0,
                esz % 8 == 0,
                ea as int % align as int == 0,
                forall|k: int| 0 <= k < j ==> !fits(#[trigger] self.free_blocks()[k], es, ea as int),
            decreases self.free@.len() - j,
        {
            let b = self.free[j];
            proof {
                assert(self.block_wf(self.free_blocks()[j as int]));
            }
            let rem: usize = b.addr % ea;
            let pad: usize = if rem == 0 {
                0
            } else {
                ea - rem
            };
            proof {
                lemma_align_up(b.addr as int, ea as int);
                assert(b.addr + pad == align_up_spec(b.addr as int, ea as int));
            }
            if pad <= b.size && esz <= b.size - pad {
                let addr: usize = b.addr + pad;
                let tail_size: usize = b.size - pad - esz;
                let tail_addr: usize = addr + esz;
                proof {
                    self.lemma_allocate_split(j as int, size as int, align as int, es, ea as int);
                }
                let ghost old_fb = self.free_blocks();
                let ghost old_live = self.live@;
                self.free.remove(j);
                if tail_size >= 16 {
                    self.free.insert(0, FreeBlock { addr: tail_addr, size: tail_size });
                }
                if pad >= 16 {
                    self.free.insert(0, FreeBlock { addr: b.addr, size: pad });
                }
                self.live = Ghost(self.live@.insert((addr as int, es)));
                proof {
                    assert(self.free_blocks() =~= split_result(old_fb, j as int, es, ea as int));
                    lemma_split_inv(
                        *old(self),
                        *self,
                        old_fb,
                        j as int,
                        addr as int,
                        es,
                        ea as int,
                    );
                }
                return Ok(addr);
            }
            proof {
                assert(!fits(self.free_blocks()[j as int], es, ea as int));
            }
            j = j + 1;
        }
        Err(AllocError::OutOfMemory)
    }

    /// Returns the block `[ptr, ptr + effective size)` — a live allocation
    /// made with the same size and alignment — to the free list, merging it
    /// with the free blocks that end at its start and start at its end, so
    /// that freeing both halves of a split block restores the whole block.
    pub fn deallocate(&mut self, ptr: usize, size: usize, align: usize)
        requires
            old(self).inv(),
            size > 0,
            is_pow2(align as int),
            size <= usize::MAX / 4,
            align <= usize::MAX / 4,
            old(self).live@.contains(
                (ptr as int, eff_size_spec(size as int, align as int)),
            ),
        ensures
            final(self).inv(),
            final(self).heap_start == old(self).heap_start,
            final(self).heap_end == old(self).heap_end,
            final(self).live@ == old(self).live@.remove(
                (ptr as int, eff_size_spec(size as int, align as int)),
            ),
            final(self).free_blocks() == coalesce_result(
                old(self).free_blocks(),
                ptr as int,
                eff_size_spec(size as int, align as int),
            ),
    {
        let ghost es = eff_size_spec(size as int, align as int);
        let ghost old_fb = old(self).free_blocks();
        let ghost nb = (ptr as int, es);
        let (ea, esz): (usize, usize) = effective_layout(size, align);
        proof {
            assert(old(self).block_wf(nb));
        }
        let end_addr: usize = ptr + esz;

        let mut j: usize = 0;
        let mut left: Option<usize> = None;
        let mut right: Option<usize> = None;
        while j < self.free.len()
            invariant
                self.inv(),
                *self == *old(self),
                j <= self.free@.len(),
                esz == es,
                end_addr == ptr + esz,
                match left {
                    Some(l) => l < j && (self.free_blocks()[l as int].0
                        + self.free_blocks()[l as int].1 == ptr) && forall|k: int|
                        0 <= k < l ==> (#[trigger] self.free_blocks()[k]).0
                            + self.free_blocks()[k].1 != ptr,
                    None => forall|k: int|
                        0 <= k < j ==> (#[trigger] self.free_blocks()[k]).0
                            + self.free_blocks()[k].1 != ptr,
                },
                match right {
                    Some(r) => r < j && (self.free_blocks()[r as int].0 == end_addr) && forall|
                        k: int|
                        0 <= k < r ==> (#[trigger] self.free_blocks()[k]).0 != end_addr,
                    None => forall|k: int|
                        0 <= k < j ==> (#[trigger] self.free_blocks()[k]).0 != end_addr,
                },
            decreases self.free@.len() - j,
        {
            let b = self.free[j];
            proof {
                assert(self.block_wf(self.free_blocks()[j as int]));
            }
            if left.is_none() && b.addr + b.size == ptr {
                left = Some(j);
            }
            if right.is_none() && b.addr == end_addr {
                right = Some(j);
            }
            j = j + 1;
        }

        proof {
            lemma_find_end_at(old_fb, ptr as int);
            lemma_find_start_at(old_fb, ptr as int + es);
            match left {
                Some(l) => {
                    assert(find_end_at(old_fb, ptr as int) == l) by {
                        let f = find_end_at(old_fb, ptr as int);
                        if f != l {
                            if 0 <= f < l {
                            } else {
                                assert(old_fb[l as int].0 + old_fb[l as int].1 == ptr);
                            }
                        }
                    }
                },
                None => {
                    assert(find_end_at(old_fb, ptr as int) == -1) by {
                        let f = find_end_at(old_fb, ptr as int);
                        if f >= 0 {
                            assert(old_fb[f].0 + old_fb[f].1 == ptr);
                        }
                    }
                },
            }
            match right {
                Some(r) => {
                    assert(find_start_at(old_fb, ptr as int + es) == r) by {
                        let f = find_start_at(old_fb, ptr as int + es);
                        if f != r {
                            if 0 <= f < r {
                            } else {
                                assert(old_fb[r as int].0 == ptr + es);
                            }
                        }
                    }
                },
                None => {
                    assert(find_start_at(old_fb, ptr as int + es) == -1) by {
                        let f = find_start_at(old_fb, ptr as int + es);
                        if f >= 0 {
                            assert(old_fb[f].0 == ptr + es);
                        }
                    }
                },
            }
        }

        let mut start: usize = ptr;
        let mut total: usize = esz;
        match (left, right) {
            (Some(l), Some(r)) => {
                let lb = self.free[l];
                let rb = self.free[r];
                proof {
                    assert(self.block_wf(self.free_blocks()[l as int]));
                    assert(self.block_wf(self.free_blocks()[r as int]));
                    if l < r {
                        assert(!blocks_overlap(
                            self.free_blocks()[l as int],
                            self.free_blocks()[r as int],
                        ));
                    } else if r < l {
                        assert(!blocks_overlap(
                            self.free_blocks()[r as int],
                            self.free_blocks()[l as int],
                        ));
                    }
                }
                start = lb.addr;
                total = lb.size + esz + rb.size;
                if l > r {
                    self.free.remove(l);
                    self.free.remove(r);
                } else {
                    self.free.remove(r);
                    self.free.remove(l);
                }
            },
            (Some(l), None) => {
                let lb = self.free[l];
                proof {
                    assert(self.block_wf(self.free_blocks()[l as int]));
                }
                start = lb.addr;
                total = lb.size + esz;
                self.free.remove(l);
            },
            (None, Some(r)) => {
                let rb = self.free[r];
                proof {
                    assert(self.block_wf(self.free_blocks()[r as int]));
                }
                total = esz + rb.size;
                self.free.remove(r);
            },
            (None, None) => {},
        }
        self.free.insert(0, FreeBlock { addr: start, size: total });
        self.live = Ghost(self.live@.remove((ptr as int, es)));
        proof {
            let l: int = match left {
                Some(l) => l as int,
                None => -1,
            };
            let r: int = match right {
                Some(r) => r as int,
                None => -1,
            };
            lemma_remove_maps(old_fb, l, r);
            assert(self.free_blocks() =~= coalesce_result(old_fb, ptr as int, es));
            lemma_coalesce_inv(*old(self), *self, old_fb, l, r, ptr as int, es);
        }
    }

    /// Facts about the pieces a fitting block splits into, used while
    /// re-establishing the invariant after an allocation.
    proof fn lemma_allocate_split(&self, i: int, size: int, align: int, es: int, ea: int)
        requires
            self.inv(),
            0 <= i < self.free_blocks().len(),
            size > 0,
            is_pow2(align),
            ea == eff_align_spec(align),
            es == eff_size_spec(size, align),
            es % ea == 0,
            es % 8 == 0,
            es >= 16,
            fits(self.free_blocks()[i], es, ea),
        ensures
            ({
                let b = self.free_blocks()[i];
                let astart = align_up_spec(b.0, ea);
                &&& b.0 <= astart
                &&& astart + es <= b.0 + b.1
                &&& astart % 8 == 0
                &&& (astart - b.0) % 8 == 0
                &&& (b.0 + b.1 - (astart + es)) % 8 == 0
                &&& astart % align == 0
            }),
    {
        let b = self.free_blocks()[i];
        assert(self.block_wf(b));
        lemma_align_up(b.0, ea);
        lemma_is_pow2_8();
        lemma_mod_multiples_one(8);
        let e = choose|e: nat| align == pow2(e);
        vstd::arithmetic::power2::lemma_pow2_pos(e);
        if align < 8 {
            lemma_pow2_mod_zero(align, 8);
        } else {
            lemma_pow2_mod_zero(8, align);
            lemma_mod_multiples_one(align);
        }
        let astart = align_up_spec(b.0, ea);
        lemma_mod_divides_chain(astart, 8, ea);
        lemma_mod_divides_chain(astart, align, ea);
        assert((astart - b.0) % 8 == 0) by {
            vstd::arithmetic::div_mod::lemma_sub_mod_noop(astart, b.0, 8);
        }
        assert((b.0 + b.1 - (astart + es)) % 8 == 0) by {
            vstd::arithmetic::div_mod::lemma_add_mod_noop(b.0, b.1, 8);
            vstd::arithmetic::div_mod::lemma_add_mod_noop(astart, es, 8);
            vstd::arithmetic::div_mod::lemma_sub_mod_noop(b.0 + b.1, astart + es, 8);
        }
    }
}

/// At no point do two live allocations overlap: in every reachable state of
/// the allocator — `allocate` and `deallocate` both preserve the invariant —
/// two distinct live allocations are disjoint in address range.
pub proof fn lemma_live_allocations_disjoint(
    s: LinkedListAllocator,
    b1: (int, int),
    b2: (int, int),
)
    requires
        s.inv(),
        s.live@.contains(b1),
        s.live@.contains(b2),
        b1 != b2,
    ensures
        !blocks_overlap(b1, b2),
{
}

/// Freeing the two halves of a contiguous region, in either order, leaves
/// the free list with exactly one new block spanning the whole region — no
/// fragmentation remains from the split — provided no free block overlaps
/// or touches the region, as the allocator invariant guarantees for a
/// region carved out of one free block.
pub proof fn lemma_coalescing_round_trip(s: Seq<(int, int)>, p: int, s1: int, s2: int)
    requires
        s1 > 0,
        s2 > 0,
        forall|k: int|
            0 <= k < s.len() ==> {
                &&& !blocks_overlap(#[trigger] s[k], (p, s1 + s2))
                &&& s[k].0 + s[k].1 != p
                &&& s[k].0 != p + s1 + s2
                &&& s[k].1 > 0
            },
    ensures
        coalesce_result(coalesce_result(s, p, s1), p + s1, s2) == s.insert(0, (p, s1 + s2)),
        coalesce_result(coalesce_result(s, p + s1, s2), p, s1) == s.insert(0, (p, s1 + s2)),
{
    lemma_find_end_at(s, p);
    lemma_find_start_at(s, p + s1);
    lemma_find_end_at(s, p + s1);
    lemma_find_start_at(s, p + s1 + s2);

    // No block of `s` ends or starts anywhere in or at the edges of the
    // region.
    assert forall|k: int| 0 <= k < s.len() implies (#[trigger] s[k]).0 != p + s1 && s[k].0
        + s[k].1 != p + s1 by {
        if s[k].0 == p + s1 {
            assert(blocks_overlap(s[k], (p, s1 + s2)));
        }
        if s[k].0 + s[k].1 == p + s1 {
            assert(blocks_overlap(s[k], (p, s1 + s2)));
        }
    }
    assert(find_end_at(s, p) == -1) by {
        if find_end_at(s, p) >= 0 {
            assert(s[find_end_at(s, p)].0 + s[find_end_at(s, p)].1 == p);
        }
    }
    assert(find_start_at(s, p + s1) == -1) by {
        if find_start_at(s, p + s1) >= 0 {
            assert(s[find_start_at(s, p + s1)].0 == p + s1);
        }
    }
    assert(find_end_at(s, p + s1) == -1) by {
        if find_end_at(s, p + s1) >= 0 {
            assert(s[find_end_at(s, p + s1)].0 + s[find_end_at(s, p + s1)].1 == p + s1);
        }
    }
    assert(find_start_at(s, p + s1 + s2) == -1) by {
        if find_start_at(s, p + s1 + s2) >= 0 {
            assert(s[find_start_at(s, p + s1 + s2)].0 == p + s1 + s2);
        }
    }

    // Freeing the first half, then the second: the second free finds the
    // first half at the front of the list and merges with it.
    let t1 = coalesce_result(s, p, s1);
    assert(t1 =~= s.insert(0, (p, s1)));
    s.insert_ensures(0, (p, s1));
    assert(t1[0] == (p, s1));
    assert(find_end_at(t1, p + s1) == 0);
    assert(find_start_at(t1, p + s1 + s2) == -1) by {
        lemma_find_start_at(t1, p + s1 + s2);
        let f = find_start_at(t1, p + s1 + s2);
        if f >= 0 {
            assert(t1[f].0 == p + s1 + s2);
            assert(t1[f] == s[f - 1]);
        }
    }
    assert(t1.remove(0) =~= s);
    assert(coalesce_result(t1, p + s1, s2) =~= s.insert(0, (p, s1 + s2)));

    // Freeing the second half, then the first: the first free finds the
    // second half at the front of the list and merges with it.
    let t2 = coalesce_result(s, p + s1, s2);
    assert(t2 =~= s.insert(0, (p + s1, s2)));
    s.insert_ensures(0, (p + s1, s2));
    assert(t2[0] == (p + s1, s2));
    assert(find_start_at(t2, p + s1) == 0);
    assert(find_end_at(t2, p) == -1) by {
        lemma_find_end_at(t2, p);
        let f = find_end_at(t2, p);
        if f >= 0 {
            assert(t2[f].0 + t2[f].1 == p);
            if f >= 1 {
                assert(t2[f] == s[f - 1]);
            }
        }
    }
    assert(t2.remove(0) =~= s);
    assert(coalesce_result(t2, p, s1) =~= s.insert(0, (p, s1 + s2)));
}

/// Computes the effective alignment and effective size of a request: what
/// the allocator actually carves out of a free block.
fn effective_layout(size: usize, align: usize) -> (r: (usize, usize))
    requires
        size > 0,
        is_pow2(align as int),
        size <= usize::MAX / 4,
        align <= usize::MAX / 4,
    ensures
        r.0 == eff_align_spec(align as int),
        r.1 == eff_size_spec(size as int, align as int),
        r.0 >= 8,
        r.1 >= 16,
        r.1 >= size,
        r.1 <= usize::MAX / 2,
        r.1 as int % r.0 as int == 0,
        r.1 % 8 == 0,
        r.0 as int % align as int == 0,
        is_pow2(r.0 as int),
{
    let ea: usize = if align < 8 {
        8
    } else {
        align
    };
    proof {
        lemma_is_pow2_8();
        lemma_mod_multiples_one(8);
        let e = choose|e: nat| align as int == pow2(e);
        vstd::arithmetic::power2::lemma_pow2_pos(e);
        if align < 8 {
            lemma_pow2_mod_zero(align as int, 8);
        } else {
            lemma_pow2_mod_zero(8, align as int);
            lemma_mod_multiples_one(align as int);
        }
        lemma_align_up(size as int, ea as int);
    }
    let es0: usize = crate::allocator::align_up(size, ea);
    let esz: usize = if es0 < 16 {
        16
    } else {
        es0
    };
    proof {
        if es0 < 16 {
            vstd::arithmetic::div_mod::lemma_mod_is_zero(es0 as nat, ea as nat);
            lemma_is_pow2_16();
            lemma_pow2_mod_zero(ea as int, 16);
        }
        lemma_mod_divides_chain(esz as int, 8, ea as int);
    }
    (ea, esz)
}

/// The index maps of removing one or two elements from a sequence.
proof fn lemma_remove_maps(s: Seq<(int, int)>, l: int, r: int)
    requires
        l == -1 || 0 <= l < s.len(),
        r == -1 || 0 <= r < s.len(),
        l >= 0 && r >= 0 ==> l != r,
    ensures
        l >= 0 && r == -1 ==> {
            let t = s.remove(l);
            &&& t.len() == s.len() - 1
            &&& forall|k: int| 0 <= k < l ==> #[trigger] t[k] == s[k]
            &&& forall|k: int| l <= k < t.len() ==> #[trigger] t[k] == s[k + 1]
        },
        r >= 0 && l == -1 ==> {
            let t = s.remove(r);
            &&& t.len() == s.len() - 1
            &&& forall|k: int| 0 <= k < r ==> #[trigger] t[k] == s[k]
            &&& forall|k: int| r <= k < t.len() ==> #[trigger] t[k] == s[k + 1]
        },
        l >= 0 && r >= 0 ==> {
            let lo = if l < r {
                l
            } else {
                r
            };
            let hi = if l < r {
                r
            } else {
                l
            };
            let t = s.remove(hi).remove(lo);
            &&& t.len() == s.len() - 2
            &&& forall|k: int| 0 <= k < lo ==> #[trigger] t[k] == s[k]
            &&& forall|k: int| lo <= k < hi - 1 ==> #[trigger] t[k] == s[k + 1]
            &&& forall|k: int| hi - 1 <= k < t.len() ==> #[trigger] t[k] == s[k + 2]
        },
{
    if l >= 0 && r >= 0 {
        let lo = if l < r {
            l
        } else {
            r
        };
        let hi = if l < r {
            r
        } else {
            l
        };
        s.remove_ensures(hi);
        s.remove(hi).remove_ensures(lo);
    } else if l >= 0 {
        s.remove_ensures(l);
    } else if r >= 0 {
        s.remove_ensures(r);
    }
}

/// After returning a live block and merging it with its address-adjacent
/// neighbours, the invariant holds again: the merged block covers exactly
/// the freed block and the removed neighbours, so it is disjoint from (and
/// not adjacent to) every remaining free block and live allocation.
#[verifier::rlimit(100)]
#[verifier::spinoff_prover]
proof fn lemma_coalesce_inv(
    pre: LinkedListAllocator,
    post: LinkedListAllocator,
    old_fb: Seq<(int, int)>,
    l: int,
    r: int,
    a: int,
    es: int,
)
    requires
        pre.inv(),
        old_fb == pre.free_blocks(),
        es >= 16,
        es % 8 == 0,
        pre.live@.contains((a, es)),
        l == find_end_at(old_fb, a),
        r == find_start_at(old_fb, a + es),
        post.heap_start == pre.heap_start,
        post.heap_end == pre.heap_end,
        post.free_blocks() == coalesce_result(old_fb, a, es),
        post.live@ == pre.live@.remove((a, es)),
    ensures
        post.inv(),
{
    let nb = (a, es);
    assert(pre.block_wf(nb));
    lemma_find_end_at(old_fb, a);
    lemma_find_start_at(old_fb, a + es);
    if l >= 0 {
        assert(pre.block_wf(old_fb[l]));
    }
    if r >= 0 {
        assert(pre.block_wf(old_fb[r]));
        if l >= 0 && l == r {
            assert(old_fb[l].0 + old_fb[l].1 == a && old_fb[l].0 == a + es);
            assert(false);
        }
    }
    lemma_remove_maps(old_fb, l, r);

    let start = if l >= 0 {
        old_fb[l].0
    } else {
        a
    };
    let end = if r >= 0 {
        old_fb[r].0 + old_fb[r].1
    } else {
        a + es
    };
    let merged = (start, end - start);
    let two = l >= 0 && r >= 0;
    let one = (l >= 0 && r == -1) || (l == -1 && r >= 0);
    let d = if l >= 0 {
        l
    } else {
        r
    };
    let lo = if l < r {
        if l >= 0 {
            l
        } else {
            r
        }
    } else {
        r
    };
    let hi = if l < r {
        r
    } else {
        l
    };
    let rest = if two {
        if l < r {
            old_fb.remove(r).remove(l)
        } else {
            old_fb.remove(l).remove(r)
        }
    } else if l >= 0 {
        old_fb.remove(l)
    } else if r >= 0 {
        old_fb.remove(r)
    } else {
        old_fb
    };
    let oidx = |k: int|
        if two {
            if k < lo {
                k
            } else if k < hi - 1 {
                k + 1
            } else {
                k + 2
            }
        } else if one {
            if k < d {
                k
            } else {
                k + 1
            }
        } else {
            k
        };
    if two {
        assert(lo == if l < r {
            l
        } else {
            r
        });
    }
    assert(forall|k: int|
        0 <= k < rest.len() ==> #[trigger] rest[k] == old_fb[oidx(k)] && 0 <= oidx(k)
            < old_fb.len() && oidx(k) != l && oidx(k) != r);
    assert(forall|k1: int, k2: int|
        #![trigger rest[k1], rest[k2]]
        0 <= k1 < k2 < rest.len() ==> oidx(k1) < oidx(k2));

    assert(post.block_wf(merged)) by {
        vstd::arithmetic::div_mod::lemma_add_mod_noop(a, es, 8);
        if r >= 0 {
            vstd::arithmetic::div_mod::lemma_add_mod_noop(old_fb[r].0, old_fb[r].1, 8);
        }
        vstd::arithmetic::div_mod::lemma_sub_mod_noop(end, start, 8);
        if two {
            if l < r {
                assert(!blocks_overlap(old_fb[l], old_fb[r]));
            } else {
                assert(!blocks_overlap(old_fb[r], old_fb[l]));
            }
        }
    }

    let fb = post.free_blocks();
    rest.insert_ensures(0, merged);
    assert(fb[0] == merged);
    assert(forall|k: int| 0 <= k < rest.len() ==> #[trigger] fb[k + 1] == rest[k]);
    assert(fb.len() == rest.len() + 1);

    // No remaining old block touches the merged range: it would overlap or
    // be adjacent to the freed block or a removed neighbour.
    assert forall|k0: int|
        0 <= k0 < old_fb.len() && k0 != l && k0 != r implies {
        let x = #[trigger] old_fb[k0];
        &&& (x.0 + x.1 <= start || end <= x.0)
        &&& x.0 + x.1 != start
        &&& x.0 != end
    } by {
        let x = old_fb[k0];
        assert(pre.block_wf(x));
        assert(!blocks_overlap(x, nb));
        if l >= 0 && k0 != l {
            if k0 < l {
                assert(!blocks_overlap(old_fb[k0], old_fb[l]) && old_fb[k0].0 + old_fb[k0].1
                    != old_fb[l].0 && old_fb[l].0 + old_fb[l].1 != old_fb[k0].0);
            } else {
                assert(!blocks_overlap(old_fb[l], old_fb[k0]) && old_fb[l].0 + old_fb[l].1
                    != old_fb[k0].0 && old_fb[k0].0 + old_fb[k0].1 != old_fb[l].0);
            }
        }
        if r >= 0 && k0 != r {
            if k0 < r {
                assert(!blocks_overlap(old_fb[k0], old_fb[r]) && old_fb[k0].0 + old_fb[k0].1
                    != old_fb[r].0 && old_fb[r].0 + old_fb[r].1 != old_fb[k0].0);
            } else {
                assert(!blocks_overlap(old_fb[r], old_fb[k0]) && old_fb[r].0 + old_fb[r].1
                    != old_fb[k0].0 && old_fb[k0].0 + old_fb[k0].1 != old_fb[r].0);
            }
        }
        if !(x.0 + x.1 <= start || end <= x.0) {
            if x.0 + x.1 <= a {
                assert(l >= 0);
                assert(blocks_overlap(x, old_fb[l]) || blocks_overlap(old_fb[l], x));
            } else if x.0 >= a + es {
                assert(r >= 0);
                assert(blocks_overlap(x, old_fb[r]) || blocks_overlap(old_fb[r], x));
            } else {
                assert(blocks_overlap(x, nb));
            }
            assert(false);
        }
        if x.0 + x.1 == start {
            assert(l == -1 ==> x.0 + x.1 != a);
            assert(false);
        }
        if x.0 == end {
            assert(r == -1 ==> x.0 != a + es);
            assert(false);
        }
    }

    // Well-formedness of the new list.
    assert forall|k: int| 0 <= k < fb.len() implies post.block_wf(#[trigger] fb[k]) by {
        if k >= 1 {
            assert(fb[k] == old_fb[oidx(k - 1)]);
            assert(pre.block_wf(old_fb[oidx(k - 1)]));
        }
    }

    // Pairwise disjointness and non-adjacency.
    assert forall|k1: int, k2: int| 0 <= k1 < k2 < fb.len() implies {
        &&& !blocks_overlap(#[trigger] fb[k1], #[trigger] fb[k2])
        &&& fb[k1].0 + fb[k1].1 != fb[k2].0
        &&& fb[k2].0 + fb[k2].1 != fb[k1].0
    } by {
        if k1 == 0 {
            let k0 = oidx(k2 - 1);
            assert(fb[k2] == old_fb[k0]);
        } else {
            let k01 = oidx(k1 - 1);
            let k02 = oidx(k2 - 1);
            assert(rest[k1 - 1] == old_fb[k01] && rest[k2 - 1] == old_fb[k02]);
            assert(k01 < k02);
            assert(fb[k1] == old_fb[k01] && fb[k2] == old_fb[k02]);
        }
    }

    // Live allocations against the new list and each other.
    assert forall|bb: (int, int)| #[trigger] post.live@.contains(bb) implies post.block_wf(bb) by {
        assert(pre.live@.contains(bb));
    }
    assert forall|b1: (int, int), b2: (int, int)|
        #![trigger post.live@.contains(b1), post.live@.contains(b2)]
        post.live@.contains(b1) && post.live@.contains(b2) && b1 != b2 implies !blocks_overlap(
        b1,
        b2,
    ) by {
        assert(pre.live@.contains(b1) && pre.live@.contains(b2));
    }
    assert forall|bb: (int, int), k: int|
        #![trigger post.live@.contains(bb), post.free_blocks()[k]]
        post.live@.contains(bb) && 0 <= k < fb.len() implies !blocks_overlap(bb, fb[k]) by {
        assert(pre.live@.contains(bb) && bb != nb);
        if k == 0 {
            // The live block is disjoint from the freed block and from both
            // removed neighbours, so it is disjoint from their union.
            assert(!blocks_overlap(bb, nb));
            if l >= 0 {
                assert(!blocks_overlap(bb, old_fb[l]));
            }
            if r >= 0 {
                assert(!blocks_overlap(bb, old_fb[r]));
            }
        } else {
            let k0 = oidx(k - 1);
            assert(fb[k] == old_fb[k0]);
            assert(!blocks_overlap(bb, old_fb[k0]));
        }
    }
}

/// 16 is a power of two.
proof fn lemma_is_pow2_16()
    ensures
        is_pow2(16),
{
    vstd::arithmetic::power2::lemma2_to64();
    assert(16 == pow2(4));
}

/// After splitting the `i`-th free block for an allocation, the invariant
/// holds again: the kept pieces stay inside the old block, so they are
/// disjoint from every other free block and every live allocation, and the
/// new live block is disjoint from everything else.
proof fn lemma_split_inv(
    pre: LinkedListAllocator,
    post: LinkedListAllocator,
    old_fb: Seq<(int, int)>,
    i: int,
    addr: int,
    es: int,
    ea: int,
)
    requires
        pre.inv(),
        old_fb == pre.free_blocks(),
        0 <= i < old_fb.len(),
        fits(old_fb[i], es, ea),
        es >= 16,
        es % 8 == 0,
        ea >= 8,
        addr == align_up_spec(old_fb[i].0, ea),
        addr % 8 == 0,
        (addr - old_fb[i].0) % 8 == 0,
        (old_fb[i].0 + old_fb[i].1 - (addr + es)) % 8 == 0,
        post.heap_start == pre.heap_start,
        post.heap_end == pre.heap_end,
        post.free_blocks() == split_result(old_fb, i, es, ea),
        post.live@ == pre.live@.insert((addr, es)),
    ensures
        post.inv(),
        !pre.live@.contains((addr, es)),
{
    let b = old_fb[i];
    assert(pre.block_wf(b));
    let front = addr - b.0;
    let tail = b.0 + b.1 - (addr + es);
    let rest = old_fb.remove(i);
    old_fb.remove_ensures(i);
    let pieces = split_pieces(b, es, ea);
    let nb = (addr, es);

    // Every element of `rest` is an old free block other than the split one.
    assert(forall|k: int|
        0 <= k < rest.len() ==> #[trigger] rest[k] == if k < i {
            old_fb[k]
        } else {
            old_fb[k + 1]
        });

    // The new live block lies inside the split block, so it cannot already
    // be live.
    if pre.live@.contains(nb) {
        assert(blocks_overlap(nb, old_fb[i]));
    }

    // Pieces lie inside the split block and are well-formed.
    assert(forall|k: int|
        0 <= k < pieces.len() ==> b.0 <= (#[trigger] pieces[k]).0 && pieces[k].0 + pieces[k].1
            <= b.0 + b.1 && pieces[k].1 >= 16 && pieces[k].0 % 8 == 0 && pieces[k].1 % 8 == 0);
    assert(forall|k: int| 0 <= k < pieces.len() ==> post.block_wf(#[trigger] pieces[k]));

    let fb = post.free_blocks();
    let np = pieces.len() as int;
    assert(fb.len() == np + rest.len());
    assert(forall|k: int| 0 <= k < np ==> #[trigger] fb[k] == pieces[k]);
    assert(forall|k: int| np <= k < fb.len() ==> #[trigger] fb[k] == rest[k - np]);

    // Well-formedness of every block of the new list.
    assert forall|k: int| 0 <= k < fb.len() implies post.block_wf(#[trigger] fb[k]) by {
        if k >= np {
            assert(pre.block_wf(rest[k - np]));
        }
    }

    // Pairwise disjointness and non-adjacency.
    assert forall|k1: int, k2: int| 0 <= k1 < k2 < fb.len() implies {
        &&& !blocks_overlap(#[trigger] fb[k1], #[trigger] fb[k2])
        &&& fb[k1].0 + fb[k1].1 != fb[k2].0
        &&& fb[k2].0 + fb[k2].1 != fb[k1].0
    } by {
        if k1 < np && k2 < np {
            // Front piece then tail piece: separated by the allocation.
            assert(pieces[k1].0 + pieces[k1].1 <= addr);
            assert(addr + es <= pieces[k2].0);
        } else if k1 < np {
            // A piece against an untouched block: the piece lies inside the
            // split block, which was disjoint from and not adjacent to the
            // untouched block; adjacency at the carved edges would mean the
            // untouched block touches the inside of the split block.
            let x = rest[k2 - np];
            let k0 = if k2 - np < i {
                k2 - np
            } else {
                k2 - np + 1
            };
            assert(x == old_fb[k0]);
            assert(k0 != i);
            if k0 < i {
                assert(!blocks_overlap(old_fb[k0], old_fb[i]));
            } else {
                assert(!blocks_overlap(old_fb[i], old_fb[k0]));
            }
            assert(pre.block_wf(x));
        } else {
            let x1 = rest[k1 - np];
            let x2 = rest[k2 - np];
            let k01 = if k1 - np < i {
                k1 - np
            } else {
                k1 - np + 1
            };
            let k02 = if k2 - np < i {
                k2 - np
            } else {
                k2 - np + 1
            };
            assert(x1 == old_fb[k01] && x2 == old_fb[k02] && k01 < k02);
        }
    }

    // Live blocks: the new one lies inside the split block; old ones were
    // disjoint from the split block and from each other.
    assert forall|b1: (int, int), b2: (int, int)|
        #![trigger post.live@.contains(b1), post.live@.contains(b2)]
        post.live@.contains(b1) && post.live@.contains(b2) && b1 != b2 implies !blocks_overlap(
        b1,
        b2,
    ) by {
        if b1 == nb {
            assert(pre.live@.contains(b2));
        } else if b2 == nb {
            assert(pre.live@.contains(b1));
        } else {
            assert(pre.live@.contains(b1) && pre.live@.contains(b2));
        }
    }
    assert forall|bb: (int, int)| #[trigger] post.live@.contains(bb) implies post.block_wf(bb) by {
        if bb != nb {
            assert(pre.live@.contains(bb));
        }
    }
    assert forall|bb: (int, int), k: int|
        #![trigger post.live@.contains(bb), post.free_blocks()[k]]
        post.live@.contains(bb) && 0 <= k < fb.len() implies !blocks_overlap(bb, fb[k]) by {
        if bb == nb {
            if k < np {
                assert(pieces[k].0 + pieces[k].1 <= addr || addr + es <= pieces[k].0);
            } else {
                let x = rest[k - np];
                let k0 = if k - np < i {
                    k - np
                } else {
                    k - np + 1
                };
                assert(x == old_fb[k0] && k0 != i);
                if k0 < i {
                    assert(!blocks_overlap(old_fb[k0], old_fb[i]));
                } else {
                    assert(!blocks_overlap(old_fb[i], old_fb[k0]));
                }
            }
        } else {
            assert(pre.live@.contains(bb));
            if k < np {
                assert(!blocks_overlap(bb, old_fb[i]));
            } else {
                let x = rest[k - np];
                let k0 = if k - np < i {
                    k - np
                } else {
                    k - np + 1
                };
                assert(x == old_fb[k0]);
                assert(!blocks_overlap(bb, old_fb[k0]));
            }
        }
    }
}

} // verus!
