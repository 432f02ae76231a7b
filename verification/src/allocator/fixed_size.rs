//! The size-classed strategy: power-of-two block classes served in constant
//! time, with the free-list strategy as fallback. A request at most the
//! largest class rounds up to the smallest class that holds both its size
//! and its alignment; freed class blocks go back onto their class list and
//! are reused without any scanning or coalescing. Larger requests pass
//! through to the wrapped free-list allocator.

use crate::allocator::{
    blocks_overlap, is_pow2, lemma_mod_divides_chain, lemma_mod_multiples_one,
    lemma_pow2_mod_zero, AllocError,
};
use crate::allocator::align_up_spec;
use crate::allocator::linked_list::{
    coalesce_result, eff_align_spec, eff_size_spec, fits, split_result, LinkedListAllocator,
};
use vstd::arithmetic::power2::pow2;
use vstd::prelude::*;

verus! {

/// Number of block-size classes.
pub const NUM_CLASSES: usize = 8;

/// The fixed block size of class `c`: powers of two from 16 to 2048.
pub open spec fn class_size_spec(c: int) -> int {
    if c == 0 {
        16
    } else if c == 1 {
        32
    } else if c == 2 {
        64
    } else if c == 3 {
        128
    } else if c == 4 {
        256
    } else if c == 5 {
        512
    } else if c == 6 {
        1024
    } else {
        2048
    }
}

/// The fixed block size of class `c`.
pub fn class_size(c: usize) -> (r: usize)
    requires
        c < NUM_CLASSES,
    ensures
        r == class_size_spec(c as int),
{
    if c == 0 {
        16
    } else if c == 1 {
        32
    } else if c == 2 {
        64
    } else if c == 3 {
        128
    } else if c == 4 {
        256
    } else if c == 5 {
        512
    } else if c == 6 {
        1024
    } else {
        2048
    }
}

/// The smallest class whose block size holds both the requested size and
/// the requested alignment, or -1 when the request is larger than every
/// class and falls through to the free-list allocator.
pub open spec fn class_of_spec(size: int, align: int) -> int {
    let need = if size < align {
        align
    } else {
        size
    };
    if need <= 16 {
        0
    } else if need <= 32 {
        1
    } else if need <= 64 {
        2
    } else if need <= 128 {
        3
    } else if need <= 256 {
        4
    } else if need <= 512 {
        5
    } else if need <= 1024 {
        6
    } else if need <= 2048 {
        7
    } else {
        -1
    }
}

/// The size of the block that actually backs a request: its class size, or
/// the free-list allocator's effective size for a large request.
pub open spec fn granule_spec(size: int, align: int) -> int {
    let c = class_of_spec(size, align);
    if c >= 0 {
        class_size_spec(c)
    } else {
        eff_size_spec(size, align)
    }
}

/// Computes the class of a request.
pub fn class_of(size: usize, align: usize) -> (r: Option<usize>)
    ensures
        class_of_spec(size as int, align as int) >= 0 ==> r == Some(
            class_of_spec(size as int, align as int) as usize,
        ),
        class_of_spec(size as int, align as int) < 0 ==> r is None,
{
    let need: usize = if size < align {
        align
    } else {
        size
    };
    if need <= 16 {
        Some(0)
    } else if need <= 32 {
        Some(1)
    } else if need <= 64 {
        Some(2)
    } else if need <= 128 {
        Some(3)
    } else if need <= 256 {
        Some(4)
    } else if need <= 512 {
        Some(5)
    } else if need <= 1024 {
        Some(6)
    } else if need <= 2048 {
        Some(7)
    } else {
        None
    }
}

/// Every class size is a power of two between 16 and 2048.
pub proof fn lemma_class_size_pow2(c: int)
    ensures
        is_pow2(class_size_spec(c)),
        16 <= class_size_spec(c) <= 2048,
{
    vstd::arithmetic::power2::lemma2_to64();
    if c == 0 {
        assert(class_size_spec(c) == pow2(4));
    } else if c == 1 {
        assert(class_size_spec(c) == pow2(5));
    } else if c == 2 {
        assert(class_size_spec(c) == pow2(6));
    } else if c == 3 {
        assert(class_size_spec(c) == pow2(7));
    } else if c == 4 {
        assert(class_size_spec(c) == pow2(8));
    } else if c == 5 {
        assert(class_size_spec(c) == pow2(9));
    } else if c == 6 {
        assert(class_size_spec(c) == pow2(10));
    } else {
        assert(class_size_spec(c) == pow2(11));
    }
}

/// A class-sized, class-aligned request passes through the free-list
/// allocator unchanged: its effective size and alignment are the class
/// size itself.
pub proof fn lemma_class_eff(c: int)
    ensures
        eff_align_spec(class_size_spec(c)) == class_size_spec(c),
        eff_size_spec(class_size_spec(c), class_size_spec(c)) == class_size_spec(c),
{
    let cs = class_size_spec(c);
    lemma_mod_multiples_one(cs);
    assert(align_up_spec(cs, cs) == cs);
}

/// A power-of-two alignment divides any power-of-two class size at least
/// as large.
pub proof fn lemma_align_divides(align: int, cs: int)
    requires
        is_pow2(align),
        is_pow2(cs),
        align <= cs,
    ensures
        align > 0,
        cs % align == 0,
{
    let e = choose|e: nat| align == pow2(e);
    vstd::arithmetic::power2::lemma_pow2_pos(e);
    lemma_pow2_mod_zero(align, cs);
}

/// The one state in which a request cannot be served: its class list is
/// empty (or the request has no class) and no fallback block fits the
/// block that would back it. `allocate` fails exactly here.
pub open spec fn exhausted(s: FixedSizeBlockAllocator, size: int, align: int) -> bool {
    let c = class_of_spec(size, align);
    if c >= 0 {
        s.class_view(c).len() == 0 && !(exists|i: int|
            0 <= i < s.fallback.free_blocks().len() && fits(
                #[trigger] s.fallback.free_blocks()[i],
                class_size_spec(c),
                class_size_spec(c),
            ))
    } else {
        !(exists|i: int|
            0 <= i < s.fallback.free_blocks().len() && fits(
                #[trigger] s.fallback.free_blocks()[i],
                eff_size_spec(size, align),
                eff_align_spec(align),
            ))
    }
}

/// A request whose class holds a free node is always served: under a
/// workload of same-sized objects that never exceeds the class capacity,
/// every free refills the class list, so `allocate` — which fails exactly
/// in the `exhausted` state — can never report `OutOfMemory`.
pub proof fn lemma_class_hit_never_fails(s: FixedSizeBlockAllocator, size: int, align: int)
    requires
        class_of_spec(size, align) >= 0,
        s.class_view(class_of_spec(size, align)).len() > 0,
    ensures
        !exhausted(s, size, align),
{
}

/// At no point do two live allocations overlap: every live block is a
/// block the wrapped free-list allocator handed out, and its invariant
/// keeps those pairwise disjoint.
pub proof fn lemma_live_allocations_disjoint(
    s: FixedSizeBlockAllocator,
    b1: (int, int),
    b2: (int, int),
)
    requires
        s.inv(),
        s.live@.contains(b1),
        s.live@.contains(b2),
        b1 != b2,
    ensures
        !blocks_overlap(b1, b2),
{
    crate::allocator::linked_list::lemma_live_allocations_disjoint(s.fallback, b1, b2);
}

/// Freeing a class block puts it at the end of its class list, and the
/// next allocation of the same class pops exactly that node: the freed
/// address is reused, with no fallback involved. Together with `allocate`'s
/// contract — a class hit returns the last node of the class list and
/// leaves the fallback untouched — this pins the reuse behaviour down.
pub proof fn lemma_class_reuse(
    s0: FixedSizeBlockAllocator,
    s1: FixedSizeBlockAllocator,
    size: int,
    align: int,
    p: int,
)
    requires
        class_of_spec(size, align) >= 0,
        s1.class_view(class_of_spec(size, align)) == s0.class_view(
            class_of_spec(size, align),
        ).push(p),
    ensures
        s1.class_view(class_of_spec(size, align)).len() > 0,
        s1.class_view(class_of_spec(size, align)).last() == p,
        s1.class_lists@[class_of_spec(size, align)]@.last() as int == p,
{
    let c = class_of_spec(size, align);
    assert(s1.class_view(c).last() == p);
    assert(s1.class_view(c)[s1.class_view(c).len() - 1] == s1.class_lists@[c]@[s1.class_view(
        c,
    ).len() - 1] as int);
}

/// Replacing the list of one class — all other state equal — changes no
/// other class's nodes; this bridges the outer list surgery done with
/// `remove` and `insert`.
proof fn lemma_outer_list_surgery(
    pre: FixedSizeBlockAllocator,
    post: FixedSizeBlockAllocator,
    c: int,
    lv: Vec<usize>,
)
    requires
        pre.class_lists@.len() == 8,
        0 <= c < 8,
        post.class_lists@ == pre.class_lists@.remove(c).insert(c, lv),
    ensures
        post.class_lists@.len() == 8,
        post.class_lists@[c] == lv,
        forall|c2: int| 0 <= c2 < 8 && c2 != c ==> #[trigger] post.class_lists@[c2]
            == pre.class_lists@[c2],
{
    pre.class_lists@.remove_ensures(c);
    pre.class_lists@.remove(c).insert_ensures(c, lv);
    assert forall|c2: int| 0 <= c2 < 8 && c2 != c implies #[trigger] post.class_lists@[c2]
        == pre.class_lists@[c2] by {
        if c2 < c {
            assert(post.class_lists@[c2] == pre.class_lists@.remove(c)[c2]);
        } else {
            assert(post.class_lists@[c2] == pre.class_lists@.remove(c)[c2 - 1]);
        }
    }
}

/// After popping the last node of class `c` and marking it live, the
/// invariant holds again, and the popped node is a well-placed block.
proof fn lemma_hit_inv(
    pre: FixedSizeBlockAllocator,
    post: FixedSizeBlockAllocator,
    c: int,
    node: usize,
    lv: Vec<usize>,
)
    requires
        pre.inv(),
        0 <= c < 8,
        pre.class_lists@[c]@.len() > 0,
        node == pre.class_lists@[c]@.last(),
        lv@ == pre.class_lists@[c]@.subrange(0, pre.class_lists@[c]@.len() - 1),
        post.class_lists@ == pre.class_lists@.remove(c).insert(c, lv),
        post.fallback == pre.fallback,
        post.live@ == pre.live@.insert((node as int, class_size_spec(c))),
    ensures
        post.inv(),
        !pre.live@.contains((node as int, class_size_spec(c))),
        pre.fallback.heap_start <= node,
        node + class_size_spec(c) <= pre.fallback.heap_end,
        node as int % class_size_spec(c) == 0,
        post.class_view(c) == pre.class_view(c).drop_last(),
        forall|c2: int| 0 <= c2 < 8 && c2 != c ==> #[trigger] post.class_view(c2)
            == pre.class_view(c2),
{
    lemma_outer_list_surgery(pre, post, c, lv);
    let kl = pre.class_lists@[c]@.len() - 1;
    let nb = pre.class_node(c, kl);
    assert(nb == (node as int, class_size_spec(c)));
    assert(pre.fallback.live@.contains(nb) && nb.0 % class_size_spec(c) == 0);
    assert(pre.fallback.block_wf(nb));
    assert(!pre.live@.contains(nb));

    assert forall|c2: int| 0 <= c2 < 8 && c2 != c implies #[trigger] post.class_view(c2)
        =~= pre.class_view(c2) by {
        assert(post.class_lists@[c2] == pre.class_lists@[c2]);
    }
    assert(post.class_view(c) =~= pre.class_view(c).drop_last());

    // Every node position of the new lists carries the same block as the
    // same position in the old lists.
    assert forall|c2: int, k: int|
        0 <= c2 < 8 && 0 <= k < post.class_lists@[c2]@.len() implies #[trigger] post.class_node(
        c2,
        k,
    ) == pre.class_node(c2, k) && 0 <= k < pre.class_lists@[c2]@.len() && (c2 != c || k
        < kl) by {
        if c2 == c {
            assert(post.class_lists@[c] == lv);
            assert(lv@[k] == pre.class_lists@[c]@[k]);
        } else {
            assert(post.class_lists@[c2] == pre.class_lists@[c2]);
        }
    }

    assert forall|c2: int, k: int|
        0 <= c2 < 8 && 0 <= k < post.class_lists@[c2]@.len() implies {
        &&& post.fallback.live@.contains(#[trigger] post.class_node(c2, k))
        &&& post.class_node(c2, k).0 % class_size_spec(c2) == 0
    } by {
        assert(post.class_node(c2, k) == pre.class_node(c2, k));
    }

    assert forall|b: (int, int)| #[trigger] post.live@.contains(b) implies post.fallback.live@.contains(
        b,
    ) by {
        if b != nb {
            assert(pre.live@.contains(b));
        }
    }
    assert forall|b: (int, int), c2: int, k: int|
        #![trigger post.live@.contains(b), post.class_node(c2, k)]
        post.live@.contains(b) && 0 <= c2 < 8 && 0 <= k < post.class_lists@[c2]@.len() implies b
        != post.class_node(c2, k) by {
        assert(post.class_node(c2, k) == pre.class_node(c2, k) && (c2 != c || k < kl));
        if b == nb {
            assert(pre.class_node(c2, k) != pre.class_node(c, kl));
        } else {
            assert(pre.live@.contains(b));
        }
    }
    assert(post.class_nodes_distinct()) by {
        assert forall|c1: int, k1: int, c2: int, k2: int|
            0 <= c1 < 8 && 0 <= k1 < post.class_lists@[c1]@.len() && 0 <= c2 < 8 && 0 <= k2
                < post.class_lists@[c2]@.len() && (c1 != c2 || k1 != k2) implies #[trigger] post.class_node(
            c1,
            k1,
        ) != #[trigger] post.class_node(c2, k2) by {
            assert(post.class_node(c1, k1) == pre.class_node(c1, k1));
            assert(post.class_node(c2, k2) == pre.class_node(c2, k2));
        }
    }
}

/// After pushing a freed class block onto its class list, the invariant
/// holds again.
proof fn lemma_push_inv(
    pre: FixedSizeBlockAllocator,
    post: FixedSizeBlockAllocator,
    c: int,
    ptr: usize,
    lv: Vec<usize>,
)
    requires
        pre.inv(),
        0 <= c < 8,
        pre.live@.contains((ptr as int, class_size_spec(c))),
        ptr as int % class_size_spec(c) == 0,
        lv@ == pre.class_lists@[c]@.push(ptr),
        post.class_lists@ == pre.class_lists@.remove(c).insert(c, lv),
        post.fallback == pre.fallback,
        post.live@ == pre.live@.remove((ptr as int, class_size_spec(c))),
    ensures
        post.inv(),
        post.class_view(c) == pre.class_view(c).push(ptr as int),
        forall|c2: int| 0 <= c2 < 8 && c2 != c ==> #[trigger] post.class_view(c2)
            == pre.class_view(c2),
{
    lemma_outer_list_surgery(pre, post, c, lv);
    let nb = (ptr as int, class_size_spec(c));
    let kl = pre.class_lists@[c]@.len();
    assert(pre.fallback.live@.contains(nb));

    assert forall|c2: int| 0 <= c2 < 8 && c2 != c implies #[trigger] post.class_view(c2)
        =~= pre.class_view(c2) by {
        assert(post.class_lists@[c2] == pre.class_lists@[c2]);
    }
    assert(post.class_view(c) =~= pre.class_view(c).push(ptr as int));

    assert forall|c2: int, k: int|
        0 <= c2 < 8 && 0 <= k < post.class_lists@[c2]@.len() implies #[trigger] post.class_node(
        c2,
        k,
    ) == (if c2 == c && k == kl {
        nb
    } else {
        pre.class_node(c2, k)
    }) && (c2 == c && k == kl || (0 <= k < pre.class_lists@[c2]@.len())) by {
        if c2 == c {
            assert(post.class_lists@[c] == lv);
            if k < kl {
                assert(lv@[k] == pre.class_lists@[c]@[k]);
            } else {
                assert(lv@[k] == ptr);
            }
        } else {
            assert(post.class_lists@[c2] == pre.class_lists@[c2]);
        }
    }

    assert forall|c2: int, k: int|
        0 <= c2 < 8 && 0 <= k < post.class_lists@[c2]@.len() implies {
        &&& post.fallback.live@.contains(#[trigger] post.class_node(c2, k))
        &&& post.class_node(c2, k).0 % class_size_spec(c2) == 0
    } by {
        if c2 == c && k == kl {
            assert(post.class_node(c2, k) == nb);
        } else {
            assert(post.class_node(c2, k) == pre.class_node(c2, k));
        }
    }

    assert(post.class_nodes_distinct()) by {
        assert forall|c1: int, k1: int, c2: int, k2: int|
            0 <= c1 < 8 && 0 <= k1 < post.class_lists@[c1]@.len() && 0 <= c2 < 8 && 0 <= k2
                < post.class_lists@[c2]@.len() && (c1 != c2 || k1 != k2) implies #[trigger] post.class_node(
            c1,
            k1,
        ) != #[trigger] post.class_node(c2, k2) by {
            if c1 == c && k1 == kl {
                assert(post.class_node(c2, k2) == pre.class_node(c2, k2));
                assert(pre.live@.contains(nb));
            } else if c2 == c && k2 == kl {
                assert(post.class_node(c1, k1) == pre.class_node(c1, k1));
                assert(pre.live@.contains(nb));
            } else {
                assert(post.class_node(c1, k1) == pre.class_node(c1, k1));
                assert(post.class_node(c2, k2) == pre.class_node(c2, k2));
            }
        }
    }

    assert forall|b: (int, int)| #[trigger] post.live@.contains(b) implies post.fallback.live@.contains(
        b,
    ) by {
        assert(pre.live@.contains(b));
    }
    assert forall|b: (int, int), c2: int, k: int|
        #![trigger post.live@.contains(b), post.class_node(c2, k)]
        post.live@.contains(b) && 0 <= c2 < 8 && 0 <= k < post.class_lists@[c2]@.len() implies b
        != post.class_node(c2, k) by {
        assert(pre.live@.contains(b) && b != nb);
        if c2 == c && k == kl {
            assert(post.class_node(c2, k) == nb);
        } else {
            assert(post.class_node(c2, k) == pre.class_node(c2, k));
        }
    }
}

/// When the fallback hands out one more block — marked live here — the
/// invariant holds again: class lists are untouched and the new block is
/// distinct from everything the fallback had handed out before.
proof fn lemma_fallback_grow_inv(
    pre: FixedSizeBlockAllocator,
    post: FixedSizeBlockAllocator,
    b: (int, int),
)
    requires
        pre.inv(),
        post.class_lists@ == pre.class_lists@,
        post.fallback.inv(),
        post.fallback.live@ == pre.fallback.live@.insert(b),
        !pre.fallback.live@.contains(b),
        post.live@ == pre.live@.insert(b),
    ensures
        post.inv(),
        !pre.live@.contains(b),
        forall|c2: int| 0 <= c2 < 8 ==> #[trigger] post.class_view(c2) == pre.class_view(c2),
{
    assert(!pre.live@.contains(b));
    assert forall|c2: int| 0 <= c2 < 8 implies #[trigger] post.class_view(c2) =~= pre.class_view(
        c2,
    ) by {}
    assert forall|c2: int, k: int|
        0 <= c2 < 8 && 0 <= k < post.class_lists@[c2]@.len() implies {
        &&& post.fallback.live@.contains(#[trigger] post.class_node(c2, k))
        &&& post.class_node(c2, k).0 % class_size_spec(c2) == 0
    } by {
        assert(post.class_node(c2, k) == pre.class_node(c2, k));
        assert(pre.fallback.live@.contains(pre.class_node(c2, k)));
    }
    assert(post.class_nodes_distinct()) by {
        assert forall|c1: int, k1: int, c2: int, k2: int|
            0 <= c1 < 8 && 0 <= k1 < post.class_lists@[c1]@.len() && 0 <= c2 < 8 && 0 <= k2
                < post.class_lists@[c2]@.len() && (c1 != c2 || k1 != k2) implies #[trigger] post.class_node(
            c1,
            k1,
        ) != #[trigger] post.class_node(c2, k2) by {
            assert(post.class_node(c1, k1) == pre.class_node(c1, k1));
            assert(post.class_node(c2, k2) == pre.class_node(c2, k2));
        }
    }
    assert forall|bb: (int, int)| #[trigger] post.live@.contains(bb) implies post.fallback.live@.contains(
        bb,
    ) by {
        if bb != b {
            assert(pre.live@.contains(bb));
        }
    }
    assert forall|bb: (int, int), c2: int, k: int|
        #![trigger post.live@.contains(bb), post.class_node(c2, k)]
        post.live@.contains(bb) && 0 <= c2 < 8 && 0 <= k < post.class_lists@[c2]@.len() implies bb
        != post.class_node(c2, k) by {
        assert(post.class_node(c2, k) == pre.class_node(c2, k));
        assert(pre.fallback.live@.contains(pre.class_node(c2, k)));
        if bb != b {
            assert(pre.live@.contains(bb));
        }
    }
}

/// When a large block goes back to the fallback, the invariant holds
/// again: the returned block was live, so it was no class node, and every
/// class node stays a block the fallback tracks.
proof fn lemma_fallback_shrink_inv(
    pre: FixedSizeBlockAllocator,
    post: FixedSizeBlockAllocator,
    b: (int, int),
)
    requires
        pre.inv(),
        pre.live@.contains(b),
        post.class_lists@ == pre.class_lists@,
        post.fallback.inv(),
        post.fallback.live@ == pre.fallback.live@.remove(b),
        post.live@ == pre.live@.remove(b),
    ensures
        post.inv(),
        forall|c2: int| 0 <= c2 < 8 ==> #[trigger] post.class_view(c2) == pre.class_view(c2),
{
    assert forall|c2: int| 0 <= c2 < 8 implies #[trigger] post.class_view(c2) =~= pre.class_view(
        c2,
    ) by {}
    assert forall|c2: int, k: int|
        0 <= c2 < 8 && 0 <= k < post.class_lists@[c2]@.len() implies {
        &&& post.fallback.live@.contains(#[trigger] post.class_node(c2, k))
        &&& post.class_node(c2, k).0 % class_size_spec(c2) == 0
    } by {
        assert(post.class_node(c2, k) == pre.class_node(c2, k));
        assert(pre.fallback.live@.contains(pre.class_node(c2, k)));
        assert(pre.class_node(c2, k) != b);
    }
    assert(post.class_nodes_distinct()) by {
        assert forall|c1: int, k1: int, c2: int, k2: int|
            0 <= c1 < 8 && 0 <= k1 < post.class_lists@[c1]@.len() && 0 <= c2 < 8 && 0 <= k2
                < post.class_lists@[c2]@.len() && (c1 != c2 || k1 != k2) implies #[trigger] post.class_node(
            c1,
            k1,
        ) != #[trigger] post.class_node(c2, k2) by {
            assert(post.class_node(c1, k1) == pre.class_node(c1, k1));
            assert(post.class_node(c2, k2) == pre.class_node(c2, k2));
        }
    }
    assert forall|bb: (int, int)| #[trigger] post.live@.contains(bb) implies post.fallback.live@.contains(
        bb,
    ) by {
        assert(pre.live@.contains(bb) && bb != b);
    }
    assert forall|bb: (int, int), c2: int, k: int|
        #![trigger post.live@.contains(bb), post.class_node(c2, k)]
        post.live@.contains(bb) && 0 <= c2 < 8 && 0 <= k < post.class_lists@[c2]@.len() implies bb
        != post.class_node(c2, k) by {
        assert(pre.live@.contains(bb));
        assert(post.class_node(c2, k) == pre.class_node(c2, k));
    }
}

/// Size-classed allocator state: one free list of node addresses per class,
/// the wrapped free-list allocator that all blocks are originally carved
/// from, and the ghost set of live allocations.
pub struct FixedSizeBlockAllocator {
    pub class_lists: Vec<Vec<usize>>,
    pub fallback: LinkedListAllocator,
    pub live: Ghost<Set<(int, int)>>,
}

impl FixedSizeBlockAllocator {
    /// The node addresses of class `c`, in list order.
    pub open spec fn class_view(&self, c: int) -> Seq<int> {
        Seq::new(self.class_lists@[c]@.len(), |k: int| self.class_lists@[c]@[k] as int)
    }

    /// The block that the `k`-th node of class `c` stands for.
    pub open spec fn class_node(&self, c: int, k: int) -> (int, int) {
        (self.class_lists@[c]@[k] as int, class_size_spec(c))
    }

    /// Every class node is a block the fallback handed out (so class nodes
    /// and live allocations can never overlap) and is aligned to its class
    /// size.
    pub open spec fn class_nodes_wf(&self) -> bool {
        forall|c: int, k: int|
            0 <= c < 8 && 0 <= k < self.class_lists@[c]@.len() ==> {
                &&& self.fallback.live@.contains(#[trigger] self.class_node(c, k))
                &&& self.class_node(c, k).0 % class_size_spec(c) == 0
            }
    }

    /// Distinct class-list positions hold distinct blocks.
    pub open spec fn class_nodes_distinct(&self) -> bool {
        forall|c1: int, k1: int, c2: int, k2: int|
            0 <= c1 < 8 && 0 <= k1 < self.class_lists@[c1]@.len() && 0 <= c2 < 8 && 0 <= k2
                < self.class_lists@[c2]@.len() && (c1 != c2 || k1 != k2) ==> #[trigger] self.class_node(
                c1,
                k1,
            ) != #[trigger] self.class_node(c2, k2)
    }

    /// Live allocations are blocks the fallback handed out, and none of
    /// them sits on a class free list.
    pub open spec fn live_wf(&self) -> bool {
        &&& self.live@.finite()
        &&& forall|b: (int, int)| #[trigger] self.live@.contains(b) ==> self.fallback.live@.contains(
            b,
        )
        &&& forall|b: (int, int), c: int, k: int|
            #![trigger self.live@.contains(b), self.class_node(c, k)]
            self.live@.contains(b) && 0 <= c < 8 && 0 <= k < self.class_lists@[c]@.len() ==> b
                != self.class_node(c, k)
    }

    /// The allocator invariant. Every block this allocator tracks — live or
    /// on a class list — is a block the wrapped free-list allocator handed
    /// out, so its invariant keeps them all pairwise disjoint.
    pub open spec fn inv(&self) -> bool {
        &&& self.class_lists@.len() == 8
        &&& self.fallback.inv()
        &&& self.class_nodes_wf()
        &&& self.class_nodes_distinct()
        &&& self.live_wf()
    }

    /// An allocator over the empty range; `init` installs the heap.
    pub fn new() -> (r: Self)
        ensures
            r.inv(),
            r.fallback.heap_start == 0,
            r.fallback.heap_end == 0,
            forall|c: int| 0 <= c < 8 ==> (#[trigger] r.class_view(c)).len() == 0,
            r.live@ == Set::<(int, int)>::empty(),
    {
        let mut class_lists: Vec<Vec<usize>> = Vec::new();
        let mut c: usize = 0;
        while c < 8
            invariant
                c <= 8,
                class_lists@.len() == c,
                forall|i: int| 0 <= i < c ==> (#[trigger] class_lists@[i])@.len() == 0,
            decreases 8 - c,
        {
            class_lists.push(Vec::new());
            c = c + 1;
        }
        let r = FixedSizeBlockAllocator {
            class_lists,
            fallback: LinkedListAllocator::new(),
            live: Ghost(Set::empty()),
        };
        proof {
            assert forall|c: int| 0 <= c < 8 implies (#[trigger] r.class_view(c)).len() == 0 by {
                assert(r.class_lists@[c]@.len() == 0);
            }
            assert(r.class_nodes_wf()) by {
                assert forall|c: int, k: int|
                    0 <= c < 8 && 0 <= k < r.class_lists@[c]@.len() implies {
                    &&& r.fallback.live@.contains(#[trigger] r.class_node(c, k))
                    &&& r.class_node(c, k).0 % class_size_spec(c) == 0
                } by {
                    assert(r.class_lists@[c]@.len() == 0);
                }
            }
            assert(r.class_nodes_distinct()) by {
                assert forall|c1: int, k1: int, c2: int, k2: int|
                    0 <= c1 < 8 && 0 <= k1 < r.class_lists@[c1]@.len() && 0 <= c2 < 8 && 0 <= k2
                        < r.class_lists@[c2]@.len() && (c1 != c2 || k1 != k2) implies #[trigger] r.class_node(
                    c1,
                    k1,
                ) != #[trigger] r.class_node(c2, k2) by {
                    assert(r.class_lists@[c1]@.len() == 0);
                }
            }
        }
        r
    }

    /// Installs the mapped heap range into the wrapped free-list allocator;
    /// every class list starts empty.
    pub fn init(&mut self, heap_start: usize, heap_size: usize)
        requires
            heap_start % 8 == 0,
            heap_size % 8 == 0,
            heap_size >= 16,
            heap_start + heap_size <= usize::MAX,
        ensures
            final(self).inv(),
            final(self).fallback.heap_start == heap_start,
            final(self).fallback.heap_end == heap_start + heap_size,
            final(self).fallback.free_blocks() == seq![(heap_start as int, heap_size as int)],
            forall|c: int| 0 <= c < 8 ==> (#[trigger] final(self).class_view(c)).len() == 0,
            final(self).live@ == Set::<(int, int)>::empty(),
    {
        let mut fresh = FixedSizeBlockAllocator::new();
        let ghost fresh0 = fresh;
        fresh.fallback.init(heap_start, heap_size);
        proof {
            assert(fresh.class_lists@ == fresh0.class_lists@);
            assert forall|c: int| 0 <= c < 8 implies fresh.class_lists@[c]@.len() == 0 by {
                assert(fresh0.class_view(c).len() == 0);
            }
            assert forall|c: int| 0 <= c < 8 implies (#[trigger] fresh.class_view(c)).len()
                == 0 by {
                assert(fresh.class_lists@[c]@.len() == 0);
            }
            assert(fresh.class_nodes_wf()) by {
                assert forall|c: int, k: int|
                    0 <= c < 8 && 0 <= k < fresh.class_lists@[c]@.len() implies {
                    &&& fresh.fallback.live@.contains(#[trigger] fresh.class_node(c, k))
                    &&& fresh.class_node(c, k).0 % class_size_spec(c) == 0
                } by {
                    assert(fresh0.class_view(c).len() == 0);
                }
            }
            assert(fresh.class_nodes_distinct()) by {
                assert forall|c1: int, k1: int, c2: int, k2: int|
                    0 <= c1 < 8 && 0 <= k1 < fresh.class_lists@[c1]@.len() && 0 <= c2 < 8 && 0
                        <= k2 < fresh.class_lists@[c2]@.len() && (c1 != c2 || k1 != k2) implies #[trigger] fresh.class_node(
                    c1,
                    k1,
                ) != #[trigger] fresh.class_node(c2, k2) by {
                    assert(fresh0.class_view(c1).len() == 0);
                }
            }
        }
        *self = fresh;
    }

    /// Serves a request: a request no larger than the largest class pops a
    /// node from its class list in constant time, refilling from the
    /// fallback allocator with one class-sized block when the list is
    /// empty; a larger request goes to the fallback directly. Fails with
    /// `OutOfMemory` exactly when the class list is empty (or the request
    /// has no class) and no fallback block fits.
    pub fn allocate(&mut self, size: usize, align: usize) -> (r: Result<usize, AllocError>)
        requires
            old(self).inv(),
            size > 0,
            is_pow2(align as int),
            size <= usize::MAX / 4,
            align <= usize::MAX / 4,
        ensures
            final(self).inv(),
            final(self).fallback.heap_start == old(self).fallback.heap_start,
            final(self).fallback.heap_end == old(self).fallback.heap_end,
            r is Err ==> *final(self) == *old(self),
            r is Err <==> exhausted(*old(self), size as int, align as int),
            r matches Ok(addr) ==> ({
                let g = granule_spec(size as int, align as int);
                &&& addr as int % align as int == 0
                &&& old(self).fallback.heap_start <= addr
                &&& addr + size <= old(self).fallback.heap_end
                &&& !old(self).live@.contains((addr as int, g))
                &&& final(self).live@ == old(self).live@.insert((addr as int, g))
            }),
            ({
                let c = class_of_spec(size as int, align as int);
                (c >= 0 && old(self).class_view(c).len() > 0) ==> {
                    &&& r == Ok::<usize, AllocError>(old(self).class_lists@[c]@.last())
                    &&& final(self).class_view(c) == old(self).class_view(c).drop_last()
                    &&& forall|c2: int|
                        0 <= c2 < 8 && c2 != c ==> #[trigger] final(self).class_view(c2) == old(
                            self,
                        ).class_view(c2)
                    &&& final(self).fallback == old(self).fallback
                }
            }),
            ({
                let c = class_of_spec(size as int, align as int);
                ((c >= 0 && old(self).class_view(c).len() == 0) || c < 0) && r is Ok
                    ==> forall|c2: int|
                    0 <= c2 < 8 ==> #[trigger] final(self).class_view(c2) == old(
                        self,
                    ).class_view(c2)
            }),
            // A class miss refills from the fallback with one class-sized,
            // class-aligned block; a large request passes through with its
            // own size and alignment. Either way the fallback serves it
            // first-fit and records the block as handed out.
            r matches Ok(addr) ==> ({
                let c = class_of_spec(size as int, align as int);
                let fs = if c >= 0 {
                    class_size_spec(c)
                } else {
                    eff_size_spec(size as int, align as int)
                };
                let fa = if c >= 0 {
                    class_size_spec(c)
                } else {
                    eff_align_spec(align as int)
                };
                ((c >= 0 && old(self).class_view(c).len() == 0) || c < 0) ==> {
                    &&& final(self).fallback.live@ == old(self).fallback.live@.insert(
                        (addr as int, fs),
                    )
                    &&& exists|i: int|
                        {
                            &&& 0 <= i < old(self).fallback.free_blocks().len()
                            &&& fits(#[trigger] old(self).fallback.free_blocks()[i], fs, fa)
                            &&& forall|k: int|
                                0 <= k < i ==> !fits(
                                    #[trigger] old(self).fallback.free_blocks()[k],
                                    fs,
                                    fa,
                                )
                            &&& final(self).fallback.free_blocks() == split_result(
                                old(self).fallback.free_blocks(),
                                i,
                                fs,
                                fa,
                            )
                        }
                }
            }),
    {
        let ghost pre = *old(self);
        match class_of(size, align) {
            Some(c) => {
                let cs = class_size(c);
                proof {
                    lemma_class_size_pow2(c as int);
                    lemma_class_eff(c as int);
                    lemma_align_divides(align as int, class_size_spec(c as int));
                }
                if self.class_lists[c].len() > 0 {
                    let mut list: Vec<usize> = self.class_lists.remove(c);
                    let node: usize = match list.pop() {
                        Some(node) => node,
                        // Unreachable: the class list was just checked to be
                        // non-empty.
                        None => {
                            proof {
                                assert(false);
                            }
                            0
                        },
                    };
                    let ghost lv = list;
                    self.class_lists.insert(c, list);
                    self.live = Ghost(self.live@.insert((node as int, cs as int)));
                    proof {
                        lemma_hit_inv(pre, *self, c as int, node, lv);
                        lemma_mod_divides_chain(node as int, align as int, cs as int);
                    }
                    Ok(node)
                } else {
                    let res = self.fallback.allocate(cs, cs);
                    match res {
                        Ok(addr) => {
                            self.live = Ghost(self.live@.insert((addr as int, cs as int)));
                            proof {
                                lemma_fallback_grow_inv(pre, *self, (addr as int, cs as int));
                                lemma_mod_divides_chain(addr as int, align as int, cs as int);
                            }
                            Ok(addr)
                        },
                        Err(e) => Err(e),
                    }
                }
            },
            None => {
                let ghost es = eff_size_spec(size as int, align as int);
                let res = self.fallback.allocate(size, align);
                match res {
                    Ok(addr) => {
                        self.live = Ghost(self.live@.insert((addr as int, es)));
                        proof {
                            lemma_fallback_grow_inv(pre, *self, (addr as int, es));
                        }
                        Ok(addr)
                    },
                    Err(e) => Err(e),
                }
            },
        }
    }

    /// Returns a block: one with a class goes back onto its class list in
    /// constant time, with no scanning and no coalescing; a larger block is
    /// returned to the fallback allocator, which coalesces it with its
    /// neighbours.
    pub fn deallocate(&mut self, ptr: usize, size: usize, align: usize)
        requires
            old(self).inv(),
            size > 0,
            is_pow2(align as int),
            size <= usize::MAX / 4,
            align <= usize::MAX / 4,
            old(self).live@.contains(
                (ptr as int, granule_spec(size as int, align as int)),
            ),
            class_of_spec(size as int, align as int) >= 0 ==> ptr as int % class_size_spec(
                class_of_spec(size as int, align as int),
            ) == 0,
        ensures
            final(self).inv(),
            final(self).fallback.heap_start == old(self).fallback.heap_start,
            final(self).fallback.heap_end == old(self).fallback.heap_end,
            final(self).live@ == old(self).live@.remove(
                (ptr as int, granule_spec(size as int, align as int)),
            ),
            ({
                let c = class_of_spec(size as int, align as int);
                c >= 0 ==> {
                    &&& final(self).class_view(c) == old(self).class_view(c).push(ptr as int)
                    &&& forall|c2: int|
                        0 <= c2 < 8 && c2 != c ==> #[trigger] final(self).class_view(c2) == old(
                            self,
                        ).class_view(c2)
                    &&& final(self).fallback == old(self).fallback
                }
            }),
            ({
                let c = class_of_spec(size as int, align as int);
                c < 0 ==> {
                    &&& forall|c2: int|
                        0 <= c2 < 8 ==> #[trigger] final(self).class_view(c2) == old(
                            self,
                        ).class_view(c2)
                    &&& final(self).fallback.free_blocks() == coalesce_result(
                        old(self).fallback.free_blocks(),
                        ptr as int,
                        eff_size_spec(size as int, align as int),
                    )
                    &&& final(self).fallback.live@ == old(self).fallback.live@.remove(
                        (ptr as int, eff_size_spec(size as int, align as int)),
                    )
                }
            }),
    {
        let ghost pre = *old(self);
        match class_of(size, align) {
            Some(c) => {
                proof {
                    lemma_class_size_pow2(c as int);
                }
                let mut list: Vec<usize> = self.class_lists.remove(c);
                list.push(ptr);
                let ghost lv = list;
                self.class_lists.insert(c, list);
                self.live = Ghost(
                    self.live@.remove((ptr as int, class_size_spec(c as int))),
                );
                proof {
                    lemma_push_inv(pre, *self, c as int, ptr, lv);
                }
            },
            None => {
                proof {
                    assert(pre.fallback.live@.contains(
                        (ptr as int, eff_size_spec(size as int, align as int)),
                    ));
                }
                self.fallback.deallocate(ptr, size, align);
                self.live = Ghost(
                    self.live@.remove((ptr as int, eff_size_spec(size as int, align as int))),
                );
                proof {
                    lemma_fallback_shrink_inv(
                        pre,
                        *self,
                        (ptr as int, eff_size_spec(size as int, align as int)),
                    );
                }
            },
        }
    }
}

} // verus!
