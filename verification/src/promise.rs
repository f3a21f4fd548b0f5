//! What the C functions promise: which call each of them starts, and what that
//! call returns and leaves in memory.

use crate::call;
use crate::call::Call;
use crate::call::Goal;
use crate::call::Outcome;
use crate::call::EINVAL;
use crate::call::ENOMEM;
use crate::heap::Datum;
use crate::heap::Heap;
use crate::layout;
use vstd::arithmetic::power2::*;
use vstd::prelude::*;

verus! {

/// The addresses of the machine word at `at`.
pub open spec fn cell(at: int) -> Set<int> {
    Set::new(|a: int| at <= a < at + layout::word_len())
}

/// The allocation with user address `p` is as before, and so is its user data
/// outside `hole`.
pub open spec fn kept(before: Heap, after: Heap, p: int, hole: Set<int>) -> bool {
    &&& after.live(p)
    &&& after.layout_of(p) == before.layout_of(p)
    &&& forall|a: int|
        p <= a < p + before.user_len(p) && !hole.contains(a) ==> #[trigger] (after.data)(a) == (
        before.data)(a)
}

/// `p` is the user address of a new allocation of exactly `size` bytes, at a
/// multiple of `alignment`, in a block that was not there before. Everything
/// else is as it was, outside `hole`.
pub open spec fn granted(
    before: Heap,
    after: Heap,
    p: int,
    size: int,
    alignment: int,
    hole: Set<int>,
) -> bool {
    let layout = layout::block_layout(size, alignment);
    let block = p - layout::data_start(layout.align as int);
    &&& after.wf()
    &&& 0 < p
    &&& p % alignment == 0
    &&& !before.live(p)
    &&& after.live(p)
    &&& after.layout_of(p) == layout
    &&& after.user_len(p) == size
    &&& !before.blocks.contains_key(block)
    &&& after.blocks == before.blocks.insert(block, layout)
    &&& after.program == before.program
    &&& after.refusals == before.refusals
    &&& forall|q: int| before.live(q) ==> #[trigger] kept(before, after, q, hole)
    &&& forall|a: int|
        !(block <= a < block + layout.size) && !hole.contains(a) ==> #[trigger] (after.data)(a) == (
        before.data)(a)
}

/// The allocation with user address `p` is gone, with its block. Everything else
/// is as it was.
pub open spec fn released(before: Heap, after: Heap, p: int) -> bool {
    let block = before.block_of(p);
    &&& after.wf()
    &&& !after.live(p)
    &&& after.blocks == before.blocks.remove(block)
    &&& after.program == before.program
    &&& after.refusals == before.refusals
    &&& forall|q: int|
        before.live(q) && q != p ==> #[trigger] kept(before, after, q, Set::empty())
    &&& forall|a: int|
        !(block <= a < block + before.layout_of(p).size) ==> #[trigger] (after.data)(a) == (
        before.data)(a)
}

/// The allocation with user address `p` has become one of `size` bytes at the
/// user address `q`, of the same alignment and with the same data as far as both
/// sizes reach. Everything else is as it was.
pub open spec fn moved(before: Heap, after: Heap, p: int, q: int, size: int) -> bool {
    let old_layout = before.layout_of(p);
    let new_layout = layout::block_layout(size, old_layout.align as int);
    let old_block = before.block_of(p);
    let new_block = q - layout::data_start(new_layout.align as int);
    &&& after.wf()
    &&& 0 < q
    &&& q != p
    &&& q % (old_layout.align as int) == 0
    &&& !before.live(q)
    &&& !after.live(p)
    &&& after.live(q)
    &&& after.layout_of(q) == new_layout
    &&& new_layout.align == old_layout.align
    &&& after.user_len(q) == size
    &&& forall|i: int|
        0 <= i && i < before.user_len(p) && i < size ==> #[trigger] (after.data)(q + i) == (
        before.data)(p + i)
    &&& !before.blocks.contains_key(new_block)
    &&& after.blocks == before.blocks.insert(new_block, new_layout).remove(old_block)
    &&& after.program == before.program
    &&& after.refusals == before.refusals
    &&& forall|r: int|
        before.live(r) && r != p ==> #[trigger] kept(before, after, r, Set::empty())
    &&& forall|a: int|
        !(old_block <= a < old_block + old_layout.size) && !(new_block <= a < new_block
            + new_layout.size) ==> #[trigger] (after.data)(a) == (before.data)(a)
}

/// A request that got no block: it was not servable, and memory is as it was; or
/// the allocator refused it, and nothing else has happened.
pub open spec fn unserved(before: Heap, after: Heap, size: int, alignment: int) -> bool {
    after == if layout::servable(size, alignment) {
        before.refused()
    } else {
        before
    }
}

/// What an allocating call promises: a null pointer exactly where the request
/// got no block, and the user address of a new allocation otherwise, which with
/// `zero` holds zero bytes only.
pub open spec fn hands_out(before: Heap, size: int, alignment: int, zero: bool) -> spec_fn(
    Outcome,
    Heap,
) -> bool {
    |outcome: Outcome, after: Heap|
        outcome matches Outcome::Pointer(p) && if p == 0 {
            unserved(before, after, size, alignment)
        } else {
            &&& layout::servable(size, alignment)
            &&& granted(before, after, p as int, size, alignment, Set::empty())
            &&& zero ==> forall|a: int|
                p <= a < p + size ==> #[trigger] (after.data)(a) == Datum::Byte(0)
        }
}

/// The call that `malloc` starts.
pub open spec fn malloc_call(size: usize) -> Call {
    call::allocating(size as int, layout::natural_alignment(), false, Goal::Hand)
}

/// The call that `calloc` starts.
pub open spec fn calloc_call(nmemb: usize, size: usize) -> Call {
    call::allocating(nmemb * size, layout::natural_alignment(), true, Goal::Hand)
}

/// The call that `aligned_alloc` and `memalign` start.
pub open spec fn aligned_call(alignment: usize, size: usize) -> Call {
    if is_pow2(alignment as int) {
        call::allocating(size as int, alignment as int, false, Goal::Hand)
    } else {
        Call::Returning(Outcome::Pointer(0))
    }
}

/// What `aligned_alloc` and `memalign` promise: null, and memory as it was, for
/// an alignment that is no power of two.
pub open spec fn hands_out_aligned(before: Heap, alignment: usize, size: usize) -> spec_fn(
    Outcome,
    Heap,
) -> bool {
    if is_pow2(alignment as int) {
        hands_out(before, size as int, alignment as int, false)
    } else {
        |outcome: Outcome, after: Heap| outcome == Outcome::Pointer(0) && after == before
    }
}

/// Whether `posix_memalign` takes an alignment: a power of two that is a multiple
/// of the pointer size.
pub open spec fn posix_alignment(alignment: usize) -> bool {
    is_pow2(alignment as int) && alignment as int % layout::word_len() == 0
}

/// The call that `posix_memalign` starts.
pub open spec fn posix_call(memptr: usize, alignment: usize, size: usize) -> Call {
    if !posix_alignment(alignment) {
        Call::Returning(Outcome::Code(EINVAL))
    } else if size == 0 {
        Call::Delivering { at: memptr, value: 0 }
    } else {
        call::allocating(size as int, alignment as int, false, Goal::Deliver { at: memptr })
    }
}

/// Whether a pointer can be stored at `at`.
pub open spec fn holds_pointer(heap: Heap, at: int) -> bool {
    at % layout::header_alignment() == 0 && forall|a: int|
        at <= a < at + layout::word_len() ==> #[trigger] heap.writable(a)
}

/// What `posix_memalign` promises: `EINVAL` for an alignment that it does not
/// take, `ENOMEM` where the request got no block, both without a write to
/// `memptr`; otherwise zero, with the user address of a new allocation at
/// `memptr`, or null for a `size` of zero.
pub open spec fn delivers(before: Heap, memptr: usize, alignment: usize, size: usize) -> spec_fn(
    Outcome,
    Heap,
) -> bool {
    |outcome: Outcome, after: Heap|
        {
            let at = memptr as int;
            let p = after.word(at);
            if !posix_alignment(alignment) {
                outcome == Outcome::Code(EINVAL) && after == before
            } else if size == 0 {
                &&& outcome == Outcome::Code(0)
                &&& after == before.with_word(at, 0)
                &&& after.wf()
                &&& forall|q: int| before.live(q) ==> #[trigger] kept(before, after, q, cell(at))
            } else if outcome == Outcome::Code(ENOMEM) {
                unserved(before, after, size as int, alignment as int)
            } else {
                &&& outcome == Outcome::Code(0)
                &&& layout::servable(size as int, alignment as int)
                &&& after.word_at(at, p)
                &&& granted(before, after, p as int, size as int, alignment as int, cell(at))
            }
        }
}

/// What `free` promises for a null pointer, or for the user address of an
/// allocation, and what `realloc` to zero bytes promises too.
pub open spec fn frees(before: Heap, ptr: usize, result: Outcome) -> spec_fn(Outcome, Heap) -> bool {
    |outcome: Outcome, after: Heap|
        outcome == result && if ptr == 0 {
            after == before
        } else {
            released(before, after, ptr as int)
        }
}

/// The call that `realloc` starts.
pub open spec fn realloc_call(ptr: usize, size: usize) -> Call {
    if ptr == 0 {
        malloc_call(size)
    } else if size == 0 {
        call::freeing(ptr, Outcome::Pointer(0))
    } else {
        Call::Measuring { user: ptr, size }
    }
}

/// What `realloc` promises: for a null pointer what `malloc` does, for a `size`
/// of zero what `free` does. Otherwise null where the request got no block, with
/// the allocation at `ptr` as it was; else the user address that the allocation
/// has moved to.
pub open spec fn resizes(before: Heap, ptr: usize, size: usize) -> spec_fn(Outcome, Heap) -> bool {
    if ptr == 0 {
        hands_out(before, size as int, layout::natural_alignment(), false)
    } else if size == 0 {
        frees(before, ptr, Outcome::Pointer(0))
    } else {
        |outcome: Outcome, after: Heap|
            {
                let align = before.layout_of(ptr as int).align as int;
                outcome matches Outcome::Pointer(q) && if q == 0 {
                    unserved(before, after, size as int, align)
                } else {
                    &&& layout::servable(size as int, align)
                    &&& moved(before, after, ptr as int, q as int, size as int)
                }
            }
    }
}

/// Whether `free` and `realloc` take `ptr`: it is null or the user address of an
/// allocation.
pub open spec fn freeable(heap: Heap, ptr: usize) -> bool {
    ptr == 0 || heap.live(ptr as int)
}

} // verus!
