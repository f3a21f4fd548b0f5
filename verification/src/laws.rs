//! What holds of every memory, and across a few calls.

use crate::assurance;
use crate::call;
use crate::call::Call;
use crate::call::Goal;
use crate::call::Outcome;
use crate::call::Reply;
use crate::heap;
use crate::heap::Heap;
use crate::layout;
use crate::promise;
use vstd::arithmetic::div_mod::*;
use vstd::arithmetic::power2::*;
use vstd::layout::*;
use vstd::prelude::*;

verus! {

/// Where a call and memory stand after a series of replies.
pub open spec fn course(call: Call, heap: Heap, replies: Seq<Reply>) -> (Call, Heap)
    decreases replies.len(),
{
    if replies.len() == 0 {
        (call, heap)
    } else {
        course(
            call.after(replies[0]),
            heap.after(call.wants(), replies[0]),
            replies.drop_first(),
        )
    }
}

/// Whether each of a series of replies can come of the action that it answers.
pub open spec fn possible(call: Call, heap: Heap, replies: Seq<Reply>) -> bool
    decreases replies.len(),
{
    replies.len() == 0 || heap.allows(call.wants(), replies[0]) && possible(
        call.after(replies[0]),
        heap.after(call.wants(), replies[0]),
        replies.drop_first(),
    )
}

/// What an assurance means for a driver: whatever series of possible replies the
/// call has had, there were at most `steps` of them, its next action is sound,
/// and it can be resumed with any reply that can come of that action. Once it
/// returns, what it was assured of holds; and after `steps` replies it returns.
pub proof fn assurance_covers_every_course(
    call: Call,
    heap: Heap,
    steps: nat,
    post: spec_fn(Outcome, Heap) -> bool,
    replies: Seq<Reply>,
)
    requires
        heap::assured(call, heap, steps, post),
        possible(call, heap, replies),
    ensures
        ({
            let (now, memory) = course(call, heap, replies);
            &&& replies.len() <= steps
            &&& now.wf()
            &&& memory.permits(now.wants())
            &&& forall|reply: Reply| #[trigger]
                memory.allows(now.wants(), reply) ==> now.expects(reply)
            &&& now matches Call::Returning(outcome) ==> post(outcome, memory)
            &&& replies.len() == steps ==> now is Returning
        }),
    decreases replies.len(),
{
    if replies.len() > 0 {
        assert(heap.allows(call.wants(), replies[0]));
        assurance_covers_every_course(
            call.after(replies[0]),
            heap.after(call.wants(), replies[0]),
            (steps - 1) as nat,
            post,
            replies.drop_first(),
        );
    }
}

/// A call that is sound where it stands, and has not returned, has a reply to wait
/// for: no call is stuck.
pub proof fn every_sound_action_has_a_reply(heap: Heap, call: Call)
    requires
        heap.permits(call.wants()),
        !(call is Returning),
    ensures
        exists|reply: Reply| #[trigger] heap.allows(call.wants(), reply),
{
    match call {
        Call::Requesting { .. } => {
            assert(heap.allows(call.wants(), Reply::Address(0)));
        },
        Call::Measuring { .. } | Call::Recovering { .. } => {
            let at = call.wants()->ReadHeader_at;
            let header = heap.layout_of(at + layout::header_span());
            assert(heap.allows(call.wants(), Reply::Header(header)));
        },
        _ => {
            assert(heap.allows(call.wants(), Reply::Done));
        },
    }
}

/// Whatever a call is assured of, it is assured of all that follows from it.
pub proof fn assurance_weakens(
    call: Call,
    heap: Heap,
    steps: nat,
    strong: spec_fn(Outcome, Heap) -> bool,
    weak: spec_fn(Outcome, Heap) -> bool,
)
    requires
        heap::assured(call, heap, steps, strong),
        forall|outcome: Outcome, after: Heap| #[trigger]
            strong(outcome, after) ==> weak(outcome, after),
    ensures
        heap::assured(call, heap, steps, weak),
    decreases steps,
{
    if !(call is Returning) {
        assert forall|reply: Reply| #[trigger] heap.allows(call.wants(), reply) implies call.expects(
            reply,
        ) && heap::assured(
            call.after(reply),
            heap.after(call.wants(), reply),
            (steps - 1) as nat,
            weak,
        ) by {
            assurance_weakens(
                call.after(reply),
                heap.after(call.wants(), reply),
                (steps - 1) as nat,
                strong,
                weak,
            );
        }
    }
}

/// A block layout is acceptable exactly where its size is at most the largest
/// multiple of its alignment up to `isize::MAX`.
pub proof fn layout_bound(size: int, align: int)
    requires
        0 <= size,
    ensures
        layout::fits(size, align) <==> is_pow2(align) && size <= isize::MAX - isize::MAX as int
            % align,
{
    if is_pow2(align) {
        layout::lemma_pow2_divides(align, align);
        let max = isize::MAX as int;
        let top = max - max % align;
        lemma_fundamental_div_mod(max, align);
        lemma_mod_bound(max, align);
        vstd::arithmetic::mul::lemma_mul_is_commutative(align, max / align);
        lemma_mod_multiples_basic(max / align, align);
        assert(top % align == 0);
        layout::lemma_round_up(size, align);
        let up = layout::round_up(size, align);
        if up <= max && top < size {
            lemma_fundamental_div_mod(up, align);
            assert(false) by (nonlinear_arith)
                requires
                    0 < align,
                    up == align * (up / align),
                    top == (max / align) * align,
                    top < up <= max,
                    max == top + max % align,
                    max % align < align,
            ;
        }
    }
}

/// A request of no bytes is never put to the allocator, nor is one whose data
/// and header together exceed `isize::MAX`.
pub proof fn unservable_requests(size: int, alignment: int)
    requires
        0 <= size,
        0 <= alignment <= usize::MAX,
    ensures
        !layout::servable(0, alignment),
        size + layout::header_span() > isize::MAX ==> !layout::servable(size, alignment),
        alignment >= layout::header_alignment() && !is_pow2(alignment) ==> !layout::servable(
            size,
            alignment,
        ),
{
    layout::lemma_header_shape();
    layout::lemma_data_start(layout::block_alignment(alignment));
    layout::lemma_round_up(
        layout::block_size(size, alignment),
        layout::block_alignment(alignment),
    );
}

/// Every request for some bytes is put to the allocator, as long as it leaves room
/// up to `isize::MAX` for the header and for two steps of the alignment.
pub proof fn servable_requests(size: int, alignment: int)
    requires
        0 < size,
        is_pow2(alignment),
        size + 2 * size_of::<usize>() + 2 * alignment <= isize::MAX,
        size + 2 * size_of::<usize>() + 2 * align_of::<usize>() <= isize::MAX,
    ensures
        layout::servable(size, alignment),
{
    layout::lemma_header_shape();
    layout::lemma_pow2_divides(alignment, alignment);
    layout::lemma_data_start(layout::block_alignment(alignment));
    layout::lemma_round_up(
        layout::block_size(size, alignment),
        layout::block_alignment(alignment),
    );
}

/// Where an allocation lies: the header ends where the user data starts, both are
/// inside the block, and the data reaches to its end. Header and data are
/// aligned, and `free` takes the address.
pub proof fn allocations_lie_in_their_blocks(heap: Heap, p: int)
    requires
        heap.wf(),
        heap.live(p),
    ensures
        heap.blocks[heap.block_of(p)] == heap.layout_of(p),
        0 < heap.block_of(p) <= p - layout::header_span(),
        heap.header_at(p - layout::header_span(), heap.layout_of(p)),
        (p - layout::header_span()) % layout::header_alignment() == 0,
        layout::header_span() <= p <= usize::MAX,
        p % (heap.layout_of(p).align as int) == 0,
        0 < heap.user_len(p),
        p + heap.user_len(p) == heap.block_of(p) + heap.layout_of(p).size,
{
    assurance::lemma_live_shape(heap, p);
}

/// Two allocations share neither header nor user data.
pub proof fn allocations_are_apart(heap: Heap, p: int, q: int)
    requires
        heap.wf(),
        heap.live(p),
        heap.live(q),
        p != q,
    ensures
        heap::apart(
            p - layout::header_span(),
            layout::header_span() + heap.user_len(p),
            q - layout::header_span(),
            layout::header_span() + heap.user_len(q),
        ),
{
    assurance::lemma_live_shape(heap, p);
    assurance::lemma_live_shape(heap, q);
    assurance::lemma_blocks_differ(heap, p, q);
    assert(heap.blocks.contains_key(heap.block_of(p)));
    assert(heap.blocks.contains_key(heap.block_of(q)));
}

/// Whether memory may go over from `before` to `after` while no call is in
/// progress: the blocks stay as they are, and nothing changes but what the C
/// program may write to before, or owns after. Memory of the program's own may come
/// and go, such as a stack frame or what it has from elsewhere.
pub open spec fn program_step(before: Heap, after: Heap) -> bool {
    &&& after.wf()
    &&& after.blocks == before.blocks
    &&& forall|a: int|
        !before.writable(a) && !after.program.contains(a) ==> #[trigger] (after.data)(a) == (
        before.data)(a)
}

/// A program that writes only to its own memory and to the user data of its
/// allocations loses none of them, and their headers stay what they were. What it
/// may write to stays writable, but for memory of its own that is gone.
pub proof fn program_steps_keep_allocations(before: Heap, after: Heap)
    requires
        before.wf(),
        program_step(before, after),
    ensures
        forall|p: int| #[trigger]
            before.live(p) ==> after.live(p) && after.layout_of(p) == before.layout_of(p),
        forall|a: int|
            before.writable(a) && (before.program.contains(a) ==> after.program.contains(a))
                ==> #[trigger] after.writable(a),
{
    let everywhere = Set::<int>::new(|a: int| true);
    assert forall|p: int| #[trigger] before.live(p) implies after.live(p) && after.layout_of(p)
        == before.layout_of(p) by {
        assurance::lemma_live_shape(before, p);
        assert(after.blocks.contains_key(before.block_of(p)));
        assert forall|a: int| p - layout::header_span() <= a < p implies #[trigger] (after.data)(a)
            == (before.data)(a) by {
            if before.writable(a) {
                assurance::lemma_writable_apart(before, a, p);
            }
            assert(!after.program.contains(a));
        }
        assurance::lemma_kept(before, after, p, everywhere);
    }
    assert forall|a: int|
        before.writable(a) && (before.program.contains(a) ==> after.program.contains(
            a,
        )) implies #[trigger] after.writable(a) by {
        if !before.program.contains(a) {
            let p = choose|p: int| #[trigger] before.live(p) && p <= a < p + before.user_len(p);
            assert(after.live(p));
        }
    }
}

/// A call that got no block has lost nothing: every allocation is kept, data
/// included.
pub proof fn a_refusal_keeps_allocations(before: Heap, after: Heap, size: int, alignment: int)
    requires
        before.wf(),
        promise::unserved(before, after, size, alignment),
    ensures
        after.wf(),
        after.blocks == before.blocks,
        after.data == before.data,
        forall|p: int| before.live(p) ==> #[trigger] promise::kept(before, after, p, Set::empty()),
{
    assert forall|p: int| before.live(p) implies #[trigger] promise::kept(
        before,
        after,
        p,
        Set::empty(),
    ) by {
        assurance::lemma_kept(before, after, p, Set::empty());
    }
}

/// A freeing call that leaves memory as it was before, but for what `hole` and the
/// addresses of the freed block hold, and without the block at `gone`.
pub open spec fn undone(before: Heap, gone: Option<int>, hole: Set<int>) -> spec_fn(
    Outcome,
    Heap,
) -> bool {
    |outcome: Outcome, after: Heap|
        {
            &&& outcome == Outcome::Unit
            &&& after.wf()
            &&& after.blocks == match gone {
                Some(block) => before.blocks.remove(block),
                None => before.blocks,
            }
            &&& after.program == before.program
            &&& after.refusals == before.refusals
            &&& forall|q: int|
                before.live(q) && gone != Some(before.block_of(q)) ==> #[trigger] promise::kept(
                    before,
                    after,
                    q,
                    hole,
                )
        }
}

/// An allocation that is kept twice is kept.
proof fn lemma_kept_twice(before: Heap, mid: Heap, after: Heap, q: int, hole: Set<int>)
    requires
        promise::kept(before, mid, q, hole),
        promise::kept(mid, after, q, Set::empty()),
    ensures
        promise::kept(before, after, q, hole),
{
    assert forall|a: int| q <= a < q + before.user_len(q) && !hole.contains(a) implies #[trigger] (
    after.data)(a) == (before.data)(a) by {
        assert((mid.data)(a) == (before.data)(a));
    }
}

/// Freeing a new allocation leaves the blocks and the other allocations as they
/// were before it.
proof fn lemma_freed_again(
    before: Heap,
    mid: Heap,
    p: usize,
    size: int,
    alignment: int,
    hole: Set<int>,
)
    requires
        promise::granted(before, mid, p as int, size, alignment, hole),
    ensures
        heap::assured(call::freeing(p, Outcome::Unit), mid, 2, undone(before, None, hole)),
{
    let strong = promise::frees(mid, p, Outcome::Unit);
    let weak = undone(before, None, hole);
    assurance::frees_assured(mid, p, Outcome::Unit);
    assert forall|outcome: Outcome, after: Heap| #[trigger] strong(outcome, after) implies weak(
        outcome,
        after,
    ) by {
        assert(after.blocks =~= before.blocks);
        assert forall|q: int| before.live(q) implies #[trigger] promise::kept(
            before,
            after,
            q,
            hole,
        ) by {
            assert(promise::kept(before, mid, q, hole));
            assert(promise::kept(mid, after, q, Set::empty()));
            lemma_kept_twice(before, mid, after, q, hole);
        }
    }
    assurance_weakens(call::freeing(p, Outcome::Unit), mid, 2, strong, weak);
}

/// A call after which the pointer it returned, if not null, can be freed, and that
/// then undoes the call.
pub open spec fn undone_by_free(before: Heap, gone: Option<int>) -> spec_fn(
    Outcome,
    Heap,
) -> bool {
    |outcome: Outcome, mid: Heap|
        outcome matches Outcome::Pointer(p) && (p != 0 ==> heap::assured(
            call::freeing(p, Outcome::Unit),
            mid,
            2,
            undone(before, gone, Set::empty()),
        ))
}

/// A block that is handed out and then freed goes back to the allocator at the
/// address and with the layout that it was given out with: the blocks are the
/// same as before, and so is every other allocation.
pub proof fn free_undoes_allocation(heap: Heap, size: int, alignment: int, zero: bool)
    requires
        heap.wf(),
        is_pow2(alignment),
        alignment <= usize::MAX,
    ensures
        heap::assured(
            call::allocating(size, alignment, zero, Goal::Hand),
            heap,
            2,
            undone_by_free(heap, None),
        ),
{
    let strong = promise::hands_out(heap, size, alignment, zero);
    let weak = undone_by_free(heap, None);
    assurance::hands_out_assured(heap, size, alignment, zero);
    assert forall|outcome: Outcome, mid: Heap| #[trigger] strong(outcome, mid) implies weak(
        outcome,
        mid,
    ) by {
        let p = outcome->Pointer_0;
        if p != 0 {
            lemma_freed_again(heap, mid, p, size, alignment, Set::empty());
        }
    }
    assurance_weakens(
        call::allocating(size, alignment, zero, Goal::Hand),
        heap,
        2,
        strong,
        weak,
    );
}

/// The same for a block that `posix_memalign` delivers: freeing the pointer found
/// at `memptr` undoes the call, but for the word at `memptr`.
pub proof fn free_undoes_posix_memalign(heap: Heap, memptr: usize, alignment: usize, size: usize)
    requires
        heap.wf(),
        promise::holds_pointer(heap, memptr as int),
    ensures
        heap::assured(
            promise::posix_call(memptr, alignment, size),
            heap,
            3,
            |outcome: Outcome, mid: Heap|
                outcome == Outcome::Code(0) ==> heap::assured(
                    call::freeing(mid.word(memptr as int), Outcome::Unit),
                    mid,
                    2,
                    undone(heap, None, promise::cell(memptr as int)),
                ),
        ),
{
    let at = memptr as int;
    let strong = promise::delivers(heap, memptr, alignment, size);
    let weak = |outcome: Outcome, mid: Heap|
        outcome == Outcome::Code(0) ==> heap::assured(
            call::freeing(mid.word(at), Outcome::Unit),
            mid,
            2,
            undone(heap, None, promise::cell(at)),
        );
    assurance::delivers_assured(heap, memptr, alignment, size);
    assert forall|outcome: Outcome, mid: Heap| #[trigger] strong(outcome, mid) implies weak(
        outcome,
        mid,
    ) by {
        if outcome == Outcome::Code(0) && size == 0 {
            layout::lemma_header_shape();
            assert(mid.word(at) == 0);
        } else if outcome == Outcome::Code(0) {
            lemma_freed_again(
                heap,
                mid,
                mid.word(at),
                size as int,
                alignment as int,
                promise::cell(at),
            );
        }
    }
    assurance_weakens(promise::posix_call(memptr, alignment, size), heap, 3, strong, weak);
}

/// Freeing what `realloc` returned leaves what freeing the allocation in the first
/// place would have left: its block is gone, and nothing else.
pub proof fn free_after_realloc_is_free(heap: Heap, ptr: usize, size: usize)
    requires
        heap.wf(),
        heap.live(ptr as int),
    ensures
        heap::assured(
            promise::realloc_call(ptr, size),
            heap,
            6,
            undone_by_free(heap, Some(heap.block_of(ptr as int))),
        ),
{
    let block = heap.block_of(ptr as int);
    assurance::lemma_live_shape(heap, ptr as int);
    layout::lemma_header_shape();
    let strong = promise::resizes(heap, ptr, size);
    let weak = undone_by_free(heap, Some(block));
    assurance::resizes_assured(heap, ptr, size);
    assert forall|outcome: Outcome, mid: Heap| #[trigger] strong(outcome, mid) implies weak(
        outcome,
        mid,
    ) by {
        let q = outcome->Pointer_0;
        if q != 0 {
            lemma_freed_after_move(heap, mid, ptr, q, size);
        }
    }
    assurance_weakens(promise::realloc_call(ptr, size), heap, 6, strong, weak);
}

/// Freeing a moved allocation leaves what freeing it before would have left.
proof fn lemma_freed_after_move(before: Heap, mid: Heap, ptr: usize, q: usize, size: usize)
    requires
        before.wf(),
        before.live(ptr as int),
        promise::moved(before, mid, ptr as int, q as int, size as int),
    ensures
        heap::assured(
            call::freeing(q, Outcome::Unit),
            mid,
            2,
            undone(before, Some(before.block_of(ptr as int)), Set::empty()),
        ),
{
    let block = before.block_of(ptr as int);
    let strong = promise::frees(mid, q, Outcome::Unit);
    let weak = undone(before, Some(block), Set::empty());
    assurance::frees_assured(mid, q, Outcome::Unit);
    assert forall|outcome: Outcome, after: Heap| #[trigger] strong(outcome, after) implies weak(
        outcome,
        after,
    ) by {
        assert(after.blocks =~= before.blocks.remove(block));
        assert forall|r: int| before.live(r) && before.block_of(r) != block implies #[trigger] promise::kept(
            before,
            after,
            r,
            Set::empty(),
        ) by {
            assert(promise::kept(before, mid, r, Set::empty()));
            assert(promise::kept(mid, after, r, Set::empty()));
            lemma_kept_twice(before, mid, after, r, Set::empty());
        }
    }
    assurance_weakens(call::freeing(q, Outcome::Unit), mid, 2, strong, weak);
}

/// An allocation that has moved away from `p`, and holds the first `len` bytes
/// that lay there, at the same alignment.
pub open spec fn carried_on(before: Heap, p: int, len: int) -> spec_fn(Outcome, Heap) -> bool {
    |outcome: Outcome, after: Heap|
        outcome matches Outcome::Pointer(q) && (q != 0 ==> {
            &&& after.live(q as int)
            &&& after.layout_of(q as int).align == before.layout_of(p).align
            &&& forall|i: int|
                0 <= i < len ==> #[trigger] (after.data)(q + i) == (before.data)(p + i)
        })
}

/// A resize carries over any number of bytes that both sizes reach to.
pub proof fn data_survives_a_resize(heap: Heap, ptr: usize, size: usize, len: int)
    requires
        heap.wf(),
        heap.live(ptr as int),
        len <= heap.user_len(ptr as int),
        len <= size,
    ensures
        heap::assured(
            promise::realloc_call(ptr, size),
            heap,
            6,
            carried_on(heap, ptr as int, len),
        ),
{
    let strong = promise::resizes(heap, ptr, size);
    let weak = carried_on(heap, ptr as int, len);
    assurance::lemma_live_shape(heap, ptr as int);
    layout::lemma_header_shape();
    assurance::resizes_assured(heap, ptr, size);
    assurance_weakens(promise::realloc_call(ptr, size), heap, 6, strong, weak);
}

/// User data survives one resize after another, as far as all sizes reach, and so
/// does the alignment.
pub proof fn data_survives_resizes(heap: Heap, ptr: usize, first: usize, second: usize)
    requires
        heap.wf(),
        heap.live(ptr as int),
    ensures
        heap::assured(
            promise::realloc_call(ptr, first),
            heap,
            6,
            |outcome: Outcome, mid: Heap|
                outcome matches Outcome::Pointer(q) && (q != 0 ==> heap::assured(
                    promise::realloc_call(q, second),
                    mid,
                    6,
                    |last: Outcome, after: Heap|
                        last matches Outcome::Pointer(r) && (r != 0 ==> {
                            &&& after.live(r as int)
                            &&& after.user_len(r as int) == second
                            &&& after.layout_of(r as int).align == heap.layout_of(ptr as int).align
                            &&& forall|i: int|
                                0 <= i && i < heap.user_len(ptr as int) && i < first && i < second
                                    ==> #[trigger] (after.data)(r + i) == (heap.data)(ptr + i)
                        }),
                )),
        ),
{
    let p = ptr as int;
    assurance::lemma_live_shape(heap, p);
    layout::lemma_header_shape();
    let strong = promise::resizes(heap, ptr, first);
    let wanted = |last: Outcome, after: Heap|
        last matches Outcome::Pointer(r) && (r != 0 ==> {
            &&& after.live(r as int)
            &&& after.user_len(r as int) == second
            &&& after.layout_of(r as int).align == heap.layout_of(ptr as int).align
            &&& forall|i: int|
                0 <= i && i < heap.user_len(ptr as int) && i < first && i < second ==> #[trigger] (
                after.data)(r + i) == (heap.data)(ptr + i)
        });
    let weak = |outcome: Outcome, mid: Heap|
        outcome matches Outcome::Pointer(q) && (q != 0 ==> heap::assured(
            promise::realloc_call(q, second),
            mid,
            6,
            wanted,
        ));
    assurance::resizes_assured(heap, ptr, first);
    assert forall|outcome: Outcome, mid: Heap| #[trigger] strong(outcome, mid) implies weak(
        outcome,
        mid,
    ) by {
        let q = outcome->Pointer_0;
        if q != 0 {
            let inner = promise::resizes(mid, q, second);
            assurance::resizes_assured(mid, q, second);
            assert forall|o: Outcome, after: Heap| #[trigger] inner(o, after) implies wanted(
                o,
                after,
            ) by {
                let r = o->Pointer_0;
                if r != 0 {
                    assert forall|i: int|
                        0 <= i && i < heap.user_len(p) && i < first && i < second implies #[trigger] (
                    after.data)(r + i) == (heap.data)(p + i) by {
                        assert((after.data)(r + i) == (mid.data)(q + i));
                        assert((mid.data)(q + i) == (heap.data)(p + i));
                    }
                }
            }
            assurance_weakens(promise::realloc_call(q, second), mid, 6, inner, wanted);
        }
    }
    assurance_weakens(promise::realloc_call(ptr, first), heap, 6, strong, weak);
}

/// `realloc` of a null pointer is `malloc`.
pub proof fn realloc_of_null_is_malloc(size: usize)
    ensures
        promise::realloc_call(0, size) == promise::malloc_call(size),
{
}

/// `realloc` to no bytes does what `free` does, and returns null.
pub proof fn realloc_to_zero_is_free(heap: Heap, ptr: usize)
    requires
        heap.wf(),
        heap.live(ptr as int),
    ensures
        promise::realloc_call(ptr, 0) == call::freeing(ptr, Outcome::Pointer(0)),
        heap::assured(
            promise::realloc_call(ptr, 0),
            heap,
            2,
            promise::frees(heap, ptr, Outcome::Pointer(0)),
        ),
{
    assurance::lemma_live_shape(heap, ptr as int);
    layout::lemma_header_shape();
    assurance::frees_assured(heap, ptr, Outcome::Pointer(0));
}

/// `free` of a null pointer returns at once.
pub proof fn free_of_null_does_nothing()
    ensures
        call::freeing(0, Outcome::Unit) == Call::Returning(Outcome::Unit),
{
}

} // verus!
