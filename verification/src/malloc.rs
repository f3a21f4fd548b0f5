//! The C functions. Addresses are plain numbers, and zero is the null pointer.

use crate::assurance;
use crate::call;
use crate::call::Call;
use crate::call::Goal;
use crate::call::Outcome;
use crate::call::EINVAL;
use crate::heap;
use crate::heap::Heap;
use crate::layout;
use crate::promise;
use vstd::arithmetic::div_mod::*;
use vstd::prelude::*;

verus! {

/// C `malloc`: `size` bytes at the default alignment, or null.
pub fn malloc(size: usize) -> (call: Call)
    ensures
        call == promise::malloc_call(size),
        call.wf(),
        forall|heap: Heap| #[trigger]
            heap.wf() ==> heap::assured(
                call,
                heap,
                2,
                promise::hands_out(heap, size as int, layout::natural_alignment(), false),
            ),
{
    proof {
        layout::lemma_header_shape();
        assert forall|heap: Heap| #[trigger] heap.wf() implies heap::assured(
            promise::malloc_call(size),
            heap,
            2,
            promise::hands_out(heap, size as int, layout::natural_alignment(), false),
        ) by {
            assurance::hands_out_assured(heap, size as int, layout::natural_alignment(), false);
        }
    }
    call::alloc_helper(size, layout::default_align(), false, Goal::Hand)
}

/// C `calloc`: `nmemb * size` zero bytes at the default alignment, or null; null
/// too where the product is no `usize`.
pub fn calloc(nmemb: usize, size: usize) -> (call: Call)
    ensures
        call == promise::calloc_call(nmemb, size),
        call.wf(),
        nmemb * size > usize::MAX ==> call == Call::Returning(Outcome::Pointer(0)),
        forall|heap: Heap| #[trigger]
            heap.wf() ==> heap::assured(
                call,
                heap,
                2,
                promise::hands_out(heap, nmemb * size, layout::natural_alignment(), true),
            ),
{
    proof {
        layout::lemma_header_shape();
        assert forall|heap: Heap| #[trigger] heap.wf() implies heap::assured(
            promise::calloc_call(nmemb, size),
            heap,
            2,
            promise::hands_out(heap, nmemb * size, layout::natural_alignment(), true),
        ) by {
            assurance::hands_out_assured(heap, nmemb * size, layout::natural_alignment(), true);
        }
        if layout::servable(nmemb * size, layout::natural_alignment()) {
            layout::lemma_servable(nmemb * size, layout::natural_alignment());
            layout::lemma_data_start(
                layout::block_alignment(layout::natural_alignment()),
            );
        }
    }
    let total: usize = match nmemb.checked_mul(size) {
        Some(n) => n,
        None => {
            return Call::Returning(Outcome::Pointer(0));
        },
    };
    call::alloc_helper(total, layout::default_align(), true, Goal::Hand)
}

/// C11 `aligned_alloc`: `size` bytes at a multiple of `alignment`, or null; null
/// too where `alignment` is zero or no power of two.
pub fn aligned_alloc(alignment: usize, size: usize) -> (call: Call)
    ensures
        call == promise::aligned_call(alignment, size),
        call.wf(),
        forall|heap: Heap| #[trigger]
            heap.wf() ==> heap::assured(
                call,
                heap,
                2,
                promise::hands_out_aligned(heap, alignment, size),
            ),
{
    proof {
        assert forall|heap: Heap| #[trigger] heap.wf() implies heap::assured(
            promise::aligned_call(alignment, size),
            heap,
            2,
            promise::hands_out_aligned(heap, alignment, size),
        ) by {
            assurance::aligned_assured(heap, alignment, size);
        }
        reveal(vstd::arithmetic::power2::is_pow2);
    }
    if alignment == 0 || !alignment.is_power_of_two() {
        return Call::Returning(Outcome::Pointer(0));
    }
    call::alloc_helper(size, alignment, false, Goal::Hand)
}

/// POSIX `memalign`: the same as [`aligned_alloc`].
pub fn memalign(alignment: usize, size: usize) -> (call: Call)
    ensures
        call == promise::aligned_call(alignment, size),
        call.wf(),
        forall|heap: Heap| #[trigger]
            heap.wf() ==> heap::assured(
                call,
                heap,
                2,
                promise::hands_out_aligned(heap, alignment, size),
            ),
{
    aligned_alloc(alignment, size)
}

/// POSIX `posix_memalign`: stores the address of `size` bytes at a multiple of
/// `alignment` at `memptr`.
///
/// Returns zero on success, `EINVAL` where `alignment` is no power of two or no
/// multiple of the pointer size, and `ENOMEM` where there is no block.
pub fn posix_memalign(memptr: usize, alignment: usize, size: usize) -> (call: Call)
    ensures
        call == promise::posix_call(memptr, alignment, size),
        call.wf(),
        forall|heap: Heap| #[trigger]
            heap.wf() && promise::holds_pointer(heap, memptr as int) ==> heap::assured(
                call,
                heap,
                3,
                promise::delivers(heap, memptr, alignment, size),
            ),
{
    proof {
        layout::lemma_header_shape();
        if vstd::arithmetic::power2::is_pow2(alignment as int) {
            reveal(vstd::arithmetic::power2::is_pow2);
            if layout::word_len() <= alignment {
                layout::lemma_pow2_divides(layout::word_len(), alignment as int);
            } else {
                lemma_small_mod(alignment as nat, layout::word_len() as nat);
            }
        }
        assert forall|heap: Heap| #[trigger]
            heap.wf() && promise::holds_pointer(heap, memptr as int) implies heap::assured(
            promise::posix_call(memptr, alignment, size),
            heap,
            3,
            promise::delivers(heap, memptr, alignment, size),
        ) by {
            assurance::delivers_assured(heap, memptr, alignment, size);
        }
    }
    if alignment < layout::pointer_len() || !alignment.is_power_of_two() {
        return Call::Returning(Outcome::Code(EINVAL));
    }
    if size == 0 {
        return Call::Delivering { at: memptr, value: 0 };
    }
    call::alloc_helper(size, alignment, false, Goal::Deliver { at: memptr })
}

/// C `free`: gives the block of a live allocation back. Null is left alone.
pub fn free(ptr: usize) -> (call: Call)
    requires
        ptr == 0 || layout::header_span() <= ptr,
    ensures
        call == call::freeing(ptr, Outcome::Unit),
        call.wf(),
        forall|heap: Heap| #[trigger]
            heap.wf() && promise::freeable(heap, ptr) ==> heap::assured(
                call,
                heap,
                2,
                promise::frees(heap, ptr, Outcome::Unit),
            ),
{
    proof {
        assert forall|heap: Heap| #[trigger]
            heap.wf() && promise::freeable(heap, ptr) implies heap::assured(
            call::freeing(ptr, Outcome::Unit),
            heap,
            2,
            promise::frees(heap, ptr, Outcome::Unit),
        ) by {
            assurance::frees_assured(heap, ptr, Outcome::Unit);
        }
    }
    call::release(ptr, Outcome::Unit)
}

/// C `realloc`: moves a live allocation to a block for `size` bytes, with the same
/// alignment. A null `ptr` behaves like [`malloc`], a `size` of zero like
/// [`free`].
pub fn realloc(ptr: usize, size: usize) -> (call: Call)
    requires
        ptr == 0 || layout::header_span() <= ptr,
    ensures
        call == promise::realloc_call(ptr, size),
        call.wf(),
        forall|heap: Heap| #[trigger]
            heap.wf() && promise::freeable(heap, ptr) ==> heap::assured(
                call,
                heap,
                6,
                promise::resizes(heap, ptr, size),
            ),
{
    proof {
        assert forall|heap: Heap| #[trigger]
            heap.wf() && promise::freeable(heap, ptr) implies heap::assured(
            promise::realloc_call(ptr, size),
            heap,
            6,
            promise::resizes(heap, ptr, size),
        ) by {
            assurance::resizes_assured(heap, ptr, size);
        }
    }
    if ptr == 0 {
        return malloc(size);
    }
    if size == 0 {
        return call::release(ptr, Outcome::Pointer(0));
    }
    Call::Measuring { user: ptr, size }
}

} // verus!
