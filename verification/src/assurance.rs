//! Proofs that the calls keep what the C functions promise.

use crate::call;
use crate::call::Action;
use crate::call::Call;
use crate::call::Goal;
use crate::call::Outcome;
use crate::call::Reply;
use crate::heap;
use crate::heap::Datum;
use crate::heap::Heap;
use crate::layout;
use crate::layout::Layout;
use crate::promise;
use vstd::arithmetic::div_mod::*;
use vstd::arithmetic::power2::*;
use vstd::prelude::*;

verus! {

/// The header at an address is unique.
proof fn lemma_header_unique(heap: Heap, at: int, header: Layout)
    requires
        heap.header_at(at, header),
    ensures
        header == heap.layout_of(at + layout::header_span()),
{
    layout::lemma_header_shape();
    assert((heap.data)(at) == (Datum::Part { value: header.size, index: 0 }));
    assert((heap.data)(at + layout::word_len()) == (Datum::Part { value: header.align, index: 0 }));
}

/// Where a live allocation lies: inside its block, header first, and aligned.
pub proof fn lemma_live_shape(heap: Heap, p: int)
    requires
        heap.wf(),
        heap.live(p),
    ensures
        0 < heap.block_of(p),
        heap.block_of(p) + layout::header_span() <= p,
        0 < heap.user_len(p),
        p + heap.user_len(p) == heap.block_of(p) + heap.layout_of(p).size <= usize::MAX + 1,
        p % (heap.layout_of(p).align as int) == 0,
        (p - layout::header_span()) % layout::header_alignment() == 0,
        heap.in_block(p - layout::header_span(), layout::header_span()),
        heap.in_block(p, heap.user_len(p)),
        is_pow2(heap.layout_of(p).align as int),
{
    let l = heap.layout_of(p);
    let b = heap.block_of(p);
    layout::lemma_header_shape();
    assert(Heap::sound_block(b, heap.blocks[b]));
    lemma_placement(b, l);
}

/// A user address `data_start` into an aligned block is aligned, and so is the
/// header in front of it.
proof fn lemma_placement(block: int, l: Layout)
    requires
        l.carries_data(),
        block % (l.align as int) == 0,
    ensures
        layout::header_span() <= layout::data_start(l.align as int),
        (block + layout::data_start(l.align as int)) % (l.align as int) == 0,
        (block + layout::data_start(l.align as int) - layout::header_span())
            % layout::header_alignment() == 0,
{
    let align = l.align as int;
    let p = block + layout::data_start(align);
    layout::lemma_header_shape();
    layout::lemma_data_start(align);
    assert(p % align == 0) by {
        lemma_add_mod_noop(block, layout::data_start(align), align);
        lemma_small_mod(0, align as nat);
    }
    layout::lemma_pow2_divides(layout::header_alignment(), align);
    layout::lemma_divides_transitive(p, align, layout::header_alignment());
    lemma_sub_mod_noop(p, layout::header_span(), layout::header_alignment());
    lemma_small_mod(0, layout::header_alignment() as nat);
}

/// An allocation whose block is still there and whose header and user data are
/// untouched outside `hole` is kept.
pub proof fn lemma_kept(before: Heap, after: Heap, p: int, hole: Set<int>)
    requires
        before.live(p),
        after.blocks.contains_key(before.block_of(p)),
        after.blocks[before.block_of(p)] == before.blocks[before.block_of(p)],
        forall|a: int|
            p - layout::header_span() <= a < p ==> #[trigger] (after.data)(a) == (before.data)(a),
        forall|a: int|
            p <= a < p + before.user_len(p) && !hole.contains(a) ==> #[trigger] (after.data)(a) == (
            before.data)(a),
    ensures
        promise::kept(before, after, p, hole),
{
    layout::lemma_header_shape();
    let at = p - layout::header_span();
    assert((after.data)(at) == (before.data)(at));
    assert((after.data)(at + layout::word_len()) == (before.data)(at + layout::word_len()));
}

/// Two allocations lie in different blocks.
pub proof fn lemma_blocks_differ(heap: Heap, p: int, q: int)
    requires
        heap.live(p),
        heap.live(q),
        p != q,
    ensures
        heap.block_of(p) != heap.block_of(q),
{
}

/// The address of a header is read back as written.
proof fn lemma_header_written(heap: Heap, at: int, header: Layout)
    ensures
        heap.with_header(at, header).header_at(at, header),
        heap.with_header(at, header).layout_of(at + layout::header_span()) == header,
        forall|a: int|
            !(at <= a < at + layout::header_span()) ==> #[trigger] (heap.with_header(
                at,
                header,
            ).data)(a) == (heap.data)(a),
{
    layout::lemma_header_shape();
    lemma_header_unique(heap.with_header(at, header), at, header);
}

/// A fresh block with a header in it is a new allocation, and the steps that make
/// it are sound.
proof fn lemma_allocation(before: Heap, size: int, alignment: int, zero: bool, raw: int)
    requires
        before.wf(),
        layout::servable(size, alignment),
        is_pow2(alignment),
        alignment <= usize::MAX,
        before.vacant(raw, layout::block_layout(size, alignment)),
    ensures
        ({
            let l = layout::block_layout(size, alignment);
            let p = raw + layout::data_start(l.align as int);
            let mid = before.with_block(raw, l, heap::fill(zero));
            let at = p - layout::header_span();
            let after = mid.with_header(at, l);
            &&& raw <= at
            &&& p < usize::MAX + 1
            &&& mid.in_block(at, layout::header_span())
            &&& at % layout::header_alignment() == 0
            &&& promise::granted(before, after, p, size, alignment, Set::empty())
            &&& forall|a: int| p <= a < p + size ==> #[trigger] (after.data)(a) == heap::fill(zero)
        }),
{
    let l = layout::block_layout(size, alignment);
    let p = raw + layout::data_start(l.align as int);
    let mid = before.with_block(raw, l, heap::fill(zero));
    let at = p - layout::header_span();
    let after = mid.with_header(at, l);
    layout::lemma_servable(size, alignment);
    layout::lemma_header_shape();
    layout::lemma_data_start(l.align as int);
    lemma_placement(raw, l);
    assert(mid.blocks.contains_key(raw));
    lemma_header_written(mid, at, l);
    assert(after.live(p));
    assert(!before.blocks.contains_key(raw));
    assert(after.wf()) by {
        assert forall|b: int, c: int| #![trigger after.blocks.contains_key(b), after.blocks.contains_key(c)]
            after.blocks.contains_key(b) && after.blocks.contains_key(c) && b != c implies heap::apart(
            b,
            after.blocks[b].size as int,
            c,
            after.blocks[c].size as int,
        ) by {
            if b != raw {
                assert(before.blocks.contains_key(b));
            }
            if c != raw {
                assert(before.blocks.contains_key(c));
            }
        }
    }
    assert(p % alignment == 0) by {
        layout::lemma_pow2_divides(alignment, l.align as int);
        layout::lemma_divides_transitive(p, l.align as int, alignment);
    }
    assert forall|q: int| before.live(q) implies #[trigger] promise::kept(
        before,
        after,
        q,
        Set::empty(),
    ) by {
        lemma_live_shape(before, q);
        assert(before.blocks.contains_key(before.block_of(q)));
        lemma_kept(before, after, q, Set::empty());
    }
    if before.live(p) {
        lemma_live_shape(before, p);
        assert(before.blocks.contains_key(before.block_of(p)));
    }
}

/// A call that has nothing left to do is assured of what holds now.
proof fn lemma_returning(
    outcome: Outcome,
    heap: Heap,
    steps: nat,
    post: spec_fn(Outcome, Heap) -> bool,
)
    requires
        post(outcome, heap),
    ensures
        heap::assured(Call::Returning(outcome), heap, steps, post),
{
}

/// An allocating call is assured of what its goal is assured of, both with a new
/// allocation and without a block.
proof fn lemma_allocating(
    before: Heap,
    size: int,
    alignment: int,
    zero: bool,
    goal: Goal,
    rest: nat,
    post: spec_fn(Outcome, Heap) -> bool,
)
    requires
        before.wf(),
        is_pow2(alignment),
        alignment <= usize::MAX,
        goal.wf(),
        forall|steps: nat, after: Heap|
            promise::unserved(before, after, size, alignment) ==> #[trigger] heap::assured(
                goal.missed(),
                after,
                steps,
                post,
            ),
        layout::servable(size, alignment) ==> forall|p: usize, after: Heap|
            promise::granted(before, after, p as int, size, alignment, Set::empty()) && (zero ==> (
            forall|a: int|
                p <= a < p + size ==> #[trigger] (after.data)(a) == Datum::Byte(0)))
                ==> #[trigger] heap::assured(goal.met(p), after, rest, post),
    ensures
        heap::assured(call::allocating(size, alignment, zero, goal), before, rest + 2, post),
{
    let first = call::allocating(size, alignment, zero, goal);
    if !layout::servable(size, alignment) {
        assert(promise::unserved(before, before, size, alignment));
        assert(heap::assured(goal.missed(), before, rest + 2, post));
    } else {
        layout::lemma_servable(size, alignment);
        let l = layout::block_layout(size, alignment);
        layout::lemma_data_start(l.align as int);
        let wanted = Action::Alloc { layout: l, zero };
        assert forall|reply: Reply| #[trigger] before.allows(wanted, reply) implies first.expects(
            reply,
        ) && heap::assured(
            first.after(reply),
            before.after(wanted, reply),
            rest + 1,
            post,
        ) by {
            let raw = reply->Address_0;
            if raw == 0 {
                assert(promise::unserved(before, before.refused(), size, alignment));
                assert(heap::assured(goal.missed(), before.refused(), rest + 1, post));
            } else {
                lemma_allocation(before, size, alignment, zero, raw as int);
                let p = (raw + layout::data_start(l.align as int)) as usize;
                let tagging = Call::Tagging { user: p, header: l, goal };
                let mid = before.after(wanted, reply);
                let after = mid.after(tagging.wants(), Reply::Done);
                assert(heap::assured(goal.met(p), after, rest, post));
                assert(mid.permits(tagging.wants()));
                assert forall|r: Reply| #[trigger] mid.allows(
                    tagging.wants(),
                    r,
                ) implies tagging.expects(r) && heap::assured(
                    tagging.after(r),
                    mid.after(tagging.wants(), r),
                    rest,
                    post,
                ) by {
                    assert(r == Reply::Done);
                }
                assert(heap::assured(tagging, mid, rest + 1, post));
                assert(first.after(reply) == tagging);
            }
        }
    }
}

/// Giving a live allocation's block back releases the allocation.
proof fn lemma_release(before: Heap, p: int)
    requires
        before.wf(),
        before.live(p),
    ensures
        promise::released(
            before,
            before.without_block(before.block_of(p), before.layout_of(p)),
            p,
        ),
{
    let block = before.block_of(p);
    let l = before.layout_of(p);
    let after = before.without_block(block, l);
    lemma_live_shape(before, p);
    layout::lemma_header_shape();
    assert((after.data)(p - layout::header_span()) == Datum::Uninit);
    assert forall|q: int| before.live(q) && q != p implies #[trigger] promise::kept(
        before,
        after,
        q,
        Set::empty(),
    ) by {
        lemma_live_shape(before, q);
        lemma_blocks_differ(before, p, q);
        assert(before.blocks.contains_key(before.block_of(q)));
        assert(before.blocks.contains_key(block));
        lemma_kept(before, after, q, Set::empty());
    }
    assert(after.wf()) by {
        assert forall|b: int, c: int| #![trigger after.blocks.contains_key(b), after.blocks.contains_key(c)]
            after.blocks.contains_key(b) && after.blocks.contains_key(c) && b != c implies heap::apart(
            b,
            after.blocks[b].size as int,
            c,
            after.blocks[c].size as int,
        ) by {
            assert(before.blocks.contains_key(b));
            assert(before.blocks.contains_key(c));
        }
    }
}

/// A freeing call is assured of what holds once the allocation is released.
proof fn lemma_freeing(
    before: Heap,
    p: usize,
    outcome: Outcome,
    steps: nat,
    post: spec_fn(Outcome, Heap) -> bool,
)
    requires
        before.wf(),
        before.live(p as int),
        steps >= 2,
        post(
            outcome,
            before.without_block(before.block_of(p as int), before.layout_of(p as int)),
        ),
    ensures
        heap::assured(call::freeing(p, outcome), before, steps, post),
{
    lemma_live_shape(before, p as int);
    layout::lemma_header_shape();
    let first = Call::Recovering { user: p, outcome };
    let at = p - layout::header_span();
    let block = before.block_of(p as int);
    let l = before.layout_of(p as int);
    let rest = (steps - 1) as nat;
    let second = Call::Releasing { at: block as usize, layout: l, outcome };
    let after = before.without_block(block, l);
    lemma_returning(outcome, after, (rest - 1) as nat, post);
    assert forall|r: Reply| #[trigger] before.allows(second.wants(), r) implies second.expects(r)
        && heap::assured(
        second.after(r),
        before.after(second.wants(), r),
        (rest - 1) as nat,
        post,
    ) by {
        assert(r == Reply::Done);
    }
    assert(heap::assured(second, before, rest, post));
    assert forall|r: Reply| #[trigger] before.allows(first.wants(), r) implies first.expects(r)
        && heap::assured(first.after(r), before.after(first.wants(), r), rest, post) by {
        lemma_header_unique(before, at, r->Header_0);
        assert(r == Reply::Header(l));
        assert(first.after(r) == second);
    }
}

/// Every way in which a call that hands out a new allocation can go keeps the
/// promise [`promise::hands_out`], within two replies.
pub proof fn hands_out_assured(heap: Heap, size: int, alignment: int, zero: bool)
    requires
        heap.wf(),
        is_pow2(alignment),
        alignment <= usize::MAX,
    ensures
        heap::assured(
            call::allocating(size, alignment, zero, Goal::Hand),
            heap,
            2,
            promise::hands_out(heap, size, alignment, zero),
        ),
{
    lemma_allocating(
        heap,
        size,
        alignment,
        zero,
        Goal::Hand,
        0,
        promise::hands_out(heap, size, alignment, zero),
    );
}

/// Every way in which `aligned_alloc` or `memalign` can go keeps its promise,
/// within two replies.
pub proof fn aligned_assured(heap: Heap, alignment: usize, size: usize)
    requires
        heap.wf(),
    ensures
        heap::assured(
            promise::aligned_call(alignment, size),
            heap,
            2,
            promise::hands_out_aligned(heap, alignment, size),
        ),
{
    if is_pow2(alignment as int) {
        hands_out_assured(heap, size as int, alignment as int, false);
    }
}

/// Every way in which `free` of a null pointer or of a live allocation can go
/// keeps its promise, within two replies.
pub proof fn frees_assured(heap: Heap, ptr: usize, outcome: Outcome)
    requires
        heap.wf(),
        promise::freeable(heap, ptr),
    ensures
        heap::assured(
            call::freeing(ptr, outcome),
            heap,
            2,
            promise::frees(heap, ptr, outcome),
        ),
{
    if ptr != 0 {
        lemma_release(heap, ptr as int);
        lemma_freeing(heap, ptr, outcome, 2, promise::frees(heap, ptr, outcome));
    }
}

/// A write to writable memory disturbs no header.
pub proof fn lemma_writable_apart(heap: Heap, a: int, p: int)
    requires
        heap.wf(),
        heap.writable(a),
        heap.live(p),
    ensures
        !(p - layout::header_span() <= a < p),
{
    lemma_live_shape(heap, p);
    assert(heap.blocks.contains_key(heap.block_of(p)));
    if !heap.program.contains(a) {
        let q = choose|q: int| #[trigger] heap.live(q) && q <= a < q + heap.user_len(q);
        lemma_live_shape(heap, q);
        assert(heap.blocks.contains_key(heap.block_of(q)));
        if q != p {
            lemma_blocks_differ(heap, p, q);
        }
    }
}

/// A pointer stored where one may be stored keeps every allocation, but for the
/// stored word.
proof fn lemma_store(heap: Heap, at: int, value: usize)
    requires
        heap.wf(),
        promise::holds_pointer(heap, at),
    ensures
        heap.with_word(at, value).wf(),
        heap.with_word(at, value).word_at(at, value),
        heap.with_word(at, value).word(at) == value,
        forall|q: int|
            heap.live(q) ==> #[trigger] promise::kept(
                heap,
                heap.with_word(at, value),
                q,
                promise::cell(at),
            ),
{
    let after = heap.with_word(at, value);
    layout::lemma_header_shape();
    assert((after.data)(at) == (Datum::Part { value, index: 0 }));
    assert forall|q: int| heap.live(q) implies #[trigger] promise::kept(
        heap,
        after,
        q,
        promise::cell(at),
    ) by {
        assert forall|a: int| q - layout::header_span() <= a < q implies #[trigger] (after.data)(a)
            == (heap.data)(a) by {
            if at <= a < at + layout::word_len() {
                assert(heap.writable(a));
                lemma_writable_apart(heap, a, q);
            }
        }
        lemma_kept(heap, after, q, promise::cell(at));
    }
}

/// A new allocation leaves what the program may write to as it was, and writable.
proof fn lemma_granted_writable(
    before: Heap,
    after: Heap,
    p: int,
    size: int,
    alignment: int,
    a: int,
)
    requires
        before.wf(),
        promise::granted(before, after, p, size, alignment, Set::empty()),
        before.writable(a),
    ensures
        after.writable(a),
        !(after.block_of(p) <= a < after.block_of(p) + after.layout_of(p).size),
{
    let block = after.block_of(p);
    assert(after.blocks.contains_key(block));
    if !before.program.contains(a) {
        let q = choose|q: int| #[trigger] before.live(q) && q <= a < q + before.user_len(q);
        assert(promise::kept(before, after, q, Set::empty()));
        lemma_live_shape(before, q);
        assert(after.blocks.contains_key(before.block_of(q)));
        assert(after.live(q));
    }
}

/// A new allocation stays one when its address is stored.
proof fn lemma_delivered(
    before: Heap,
    mid: Heap,
    p: usize,
    size: int,
    alignment: int,
    at: int,
)
    requires
        before.wf(),
        promise::holds_pointer(before, at),
        promise::granted(before, mid, p as int, size, alignment, Set::empty()),
    ensures
        promise::holds_pointer(mid, at),
        promise::granted(
            before,
            mid.with_word(at, p),
            p as int,
            size,
            alignment,
            promise::cell(at),
        ),
{
    let after = mid.with_word(at, p);
    assert forall|a: int| at <= a < at + layout::word_len() implies #[trigger] mid.writable(a) by {
        assert(before.writable(a));
        lemma_granted_writable(before, mid, p as int, size, alignment, a);
    }
    lemma_store(mid, at, p);
    assert(promise::kept(mid, after, p as int, promise::cell(at)));
    assert forall|q: int| before.live(q) implies #[trigger] promise::kept(
        before,
        after,
        q,
        promise::cell(at),
    ) by {
        assert(promise::kept(before, mid, q, Set::empty()));
        assert(promise::kept(mid, after, q, promise::cell(at)));
        assert forall|a: int|
            q <= a < q + before.user_len(q) && !promise::cell(at).contains(a) implies #[trigger] (
        after.data)(a) == (before.data)(a) by {
            assert((mid.data)(a) == (before.data)(a));
        }
    }
    assert forall|a: int|
        !(mid.block_of(p as int) <= a < mid.block_of(p as int) + mid.layout_of(p as int).size)
            && !promise::cell(at).contains(a) implies #[trigger] (after.data)(a) == (before.data)(
    a) by {
        assert((mid.data)(a) == (before.data)(a));
    }
}

/// Every way in which `posix_memalign` can go keeps its promise, within three
/// replies.
pub proof fn delivers_assured(heap: Heap, memptr: usize, alignment: usize, size: usize)
    requires
        heap.wf(),
        promise::holds_pointer(heap, memptr as int),
    ensures
        heap::assured(
            promise::posix_call(memptr, alignment, size),
            heap,
            3,
            promise::delivers(heap, memptr, alignment, size),
        ),
{
    let at = memptr as int;
    let goal = Goal::Deliver { at: memptr };
    let post = promise::delivers(heap, memptr, alignment, size);
    if promise::posix_alignment(alignment) {
        if size == 0 {
            lemma_store(heap, at, 0);
            lemma_delivering(heap, memptr, 0, 3, post);
        } else {
            assert forall|p: usize, after: Heap|
                promise::granted(
                    heap,
                    after,
                    p as int,
                    size as int,
                    alignment as int,
                    Set::empty(),
                ) implies #[trigger] heap::assured(goal.met(p), after, 1, post) by {
                if layout::servable(size as int, alignment as int) {
                    lemma_delivered(heap, after, p, size as int, alignment as int, at);
                    lemma_store(after, at, p);
                    lemma_delivering(after, memptr, p, 1, post);
                }
            }
            lemma_allocating(heap, size as int, alignment as int, false, goal, 1, post);
        }
    }
}

/// A call that stores a pointer is assured of what holds once it is stored.
proof fn lemma_delivering(
    heap: Heap,
    at: usize,
    value: usize,
    steps: nat,
    post: spec_fn(Outcome, Heap) -> bool,
)
    requires
        promise::holds_pointer(heap, at as int),
        post(Outcome::Code(0), heap.with_word(at as int, value)),
        steps > 0,
    ensures
        heap::assured(Call::Delivering { at, value }, heap, steps, post),
{
    let first = Call::Delivering { at, value };
    lemma_returning(
        Outcome::Code(0),
        heap.with_word(at as int, value),
        (steps - 1) as nat,
        post,
    );
    assert forall|r: Reply| #[trigger] heap.allows(first.wants(), r) implies first.expects(r)
        && heap::assured(
        first.after(r),
        heap.after(first.wants(), r),
        (steps - 1) as nat,
        post,
    ) by {
        assert(r == Reply::Done);
    }
}

/// The first `len` bytes of user data at `p` copied to `q`.
spec fn copied(heap: Heap, p: int, q: int, len: int) -> Heap {
    heap.with(q, len, |a: int| (heap.data)(a - q + p))
}

/// Copying the user data into a new allocation is sound, and disturbs neither the
/// old allocation nor any other one.
proof fn lemma_copied(before: Heap, mid: Heap, p: int, q: int, size: int, len: int)
    requires
        before.wf(),
        before.live(p),
        promise::granted(
            before,
            mid,
            q,
            size,
            before.layout_of(p).align as int,
            Set::empty(),
        ),
        len == layout::smaller(before.user_len(p), size),
    ensures
        mid.in_block(p, len),
        mid.in_block(q, len),
        heap::apart(p, len, q, len),
        copied(mid, p, q, len).wf(),
        promise::kept(mid, copied(mid, p, q, len), q, Set::new(|a: int| true)),
        forall|r: int|
            before.live(r) ==> #[trigger] promise::kept(
                before,
                copied(mid, p, q, len),
                r,
                Set::empty(),
            ),
        forall|i: int|
            0 <= i < len ==> #[trigger] (copied(mid, p, q, len).data)(q + i) == (before.data)(
                p + i,
            ),
{
    let after = copied(mid, p, q, len);
    assert(promise::kept(before, mid, p, Set::empty()));
    lemma_live_shape(before, p);
    lemma_live_shape(mid, p);
    lemma_live_shape(mid, q);
    lemma_blocks_differ(mid, p, q);
    assert(mid.blocks.contains_key(mid.block_of(p)));
    assert(mid.blocks.contains_key(mid.block_of(q)));
    lemma_kept(mid, after, q, Set::new(|a: int| true));
    assert forall|r: int| before.live(r) implies #[trigger] promise::kept(
        before,
        after,
        r,
        Set::empty(),
    ) by {
        assert(promise::kept(before, mid, r, Set::empty()));
        lemma_live_shape(mid, r);
        lemma_blocks_differ(mid, r, q);
        assert(mid.blocks.contains_key(mid.block_of(r)));
        lemma_kept(mid, after, r, Set::empty());
    }
    assert forall|i: int| 0 <= i < len implies #[trigger] (after.data)(q + i) == (before.data)(
        p + i,
    ) by {
        assert((mid.data)(p + i) == (before.data)(p + i));
        assert(q + i - q + p == p + i);
    }
}

/// Once the data is copied and the old block given back, the allocation has
/// moved.
proof fn lemma_moved(before: Heap, mid: Heap, p: int, q: int, size: int, len: int)
    requires
        before.wf(),
        before.live(p),
        promise::granted(
            before,
            mid,
            q,
            size,
            before.layout_of(p).align as int,
            Set::empty(),
        ),
        len == layout::smaller(before.user_len(p), size),
    ensures
        promise::moved(
            before,
            copied(mid, p, q, len).without_block(before.block_of(p), before.layout_of(p)),
            p,
            q,
            size,
        ),
{
    let both = copied(mid, p, q, len);
    let after = both.without_block(before.block_of(p), before.layout_of(p));
    lemma_copied(before, mid, p, q, size, len);
    assert(promise::kept(before, both, p, Set::empty()));
    assert(promise::kept(mid, both, q, Set::new(|a: int| true)));
    lemma_release(both, p);
    assert(promise::kept(both, after, q, Set::empty()));
    lemma_live_shape(both, q);
    lemma_live_shape(both, p);
    assert forall|r: int| before.live(r) && r != p implies #[trigger] promise::kept(
        before,
        after,
        r,
        Set::empty(),
    ) by {
        assert(promise::kept(before, both, r, Set::empty()));
        assert(promise::kept(both, after, r, Set::empty()));
    }
    let align = before.layout_of(p).align as int;
    let new_layout = layout::block_layout(size, align);
    let new_block = q - layout::data_start(new_layout.align as int);
    assert forall|a: int|
        !(before.block_of(p) <= a < before.block_of(p) + before.layout_of(p).size) && !(new_block
            <= a < new_block + new_layout.size) implies #[trigger] (after.data)(a) == (before.data)(
    a) by {
        assert((mid.data)(a) == (before.data)(a));
    }
    assert forall|i: int|
        0 <= i && i < before.user_len(p) && i < size implies #[trigger] (after.data)(q + i) == (
    before.data)(p + i) by {
        assert((both.data)(q + i) == (before.data)(p + i));
    }
}

/// Every way in which `realloc` of a null pointer or of a live allocation can go
/// keeps its promise, within six replies.
pub proof fn resizes_assured(heap: Heap, ptr: usize, size: usize)
    requires
        heap.wf(),
        promise::freeable(heap, ptr),
    ensures
        heap::assured(
            promise::realloc_call(ptr, size),
            heap,
            6,
            promise::resizes(heap, ptr, size),
        ),
{
    let post = promise::resizes(heap, ptr, size);
    layout::lemma_header_shape();
    if ptr == 0 {
        hands_out_assured(heap, size as int, layout::natural_alignment(), false);
        lemma_more_steps(promise::realloc_call(ptr, size), heap, 2, 6, post);
    } else if size == 0 {
        frees_assured(heap, ptr, Outcome::Pointer(0));
        lemma_more_steps(promise::realloc_call(ptr, size), heap, 2, 6, post);
    } else {
        lemma_live_shape(heap, ptr as int);
        let p = ptr as int;
        let l = heap.layout_of(p);
        let len = layout::smaller(heap.user_len(p), size as int);
        let goal = Goal::Replace { from: ptr, len: len as usize };
        let first = Call::Measuring { user: ptr, size };
        assert forall|q: usize, after: Heap|
            promise::granted(
                heap,
                after,
                q as int,
                size as int,
                l.align as int,
                Set::empty(),
            ) && layout::servable(size as int, l.align as int) implies #[trigger] heap::assured(
            goal.met(q),
            after,
            3,
            post,
        ) by {
            lemma_copying(heap, after, ptr, q, size, 3, post);
        }
        lemma_allocating(heap, size as int, l.align as int, false, goal, 3, post);
        assert forall|r: Reply| #[trigger] heap.allows(first.wants(), r) implies first.expects(r)
            && heap::assured(first.after(r), heap.after(first.wants(), r), 5, post) by {
            lemma_header_unique(heap, p - layout::header_span(), r->Header_0);
            assert(r == Reply::Header(l));
            assert(first.after(r) == call::allocating(size as int, l.align as int, false, goal));
        }
        assert(heap::assured(first, heap, 6, post));
    }
}

/// The second half of a `realloc`, from the copy on, ends with the allocation
/// moved.
proof fn lemma_copying(
    before: Heap,
    mid: Heap,
    ptr: usize,
    q: usize,
    size: usize,
    steps: nat,
    post: spec_fn(Outcome, Heap) -> bool,
)
    requires
        before.wf(),
        before.live(ptr as int),
        promise::granted(
            before,
            mid,
            q as int,
            size as int,
            before.layout_of(ptr as int).align as int,
            Set::empty(),
        ),
        steps >= 3,
        forall|after: Heap|
            promise::moved(before, after, ptr as int, q as int, size as int) ==> #[trigger] post(
                Outcome::Pointer(q),
                after,
            ),
    ensures
        ({
            let len = layout::smaller(before.user_len(ptr as int), size as int) as usize;
            heap::assured(Call::Copying { from: ptr, to: q, len }, mid, steps, post)
        }),
{
    let p = ptr as int;
    let len = layout::smaller(before.user_len(p), size as int);
    let first = Call::Copying { from: ptr, to: q, len: len as usize };
    let both = copied(mid, p, q as int, len);
    lemma_live_shape(before, p);
    layout::lemma_header_shape();
    lemma_copied(before, mid, p, q as int, size as int, len);
    lemma_moved(before, mid, p, q as int, size as int, len);
    assert(promise::kept(before, both, p, Set::empty()));
    lemma_freeing(both, ptr, Outcome::Pointer(q), (steps - 1) as nat, post);
    assert forall|r: Reply| #[trigger] mid.allows(first.wants(), r) implies first.expects(r)
        && heap::assured(
        first.after(r),
        mid.after(first.wants(), r),
        (steps - 1) as nat,
        post,
    ) by {
        assert(r == Reply::Done);
        assert(mid.after(first.wants(), r) =~= both);
    }
}

/// What a call is assured of within some number of replies, it is assured of
/// within more.
pub proof fn lemma_more_steps(
    call: Call,
    heap: Heap,
    few: nat,
    many: nat,
    post: spec_fn(Outcome, Heap) -> bool,
)
    requires
        few <= many,
        heap::assured(call, heap, few, post),
    ensures
        heap::assured(call, heap, many, post),
    decreases few,
{
    if !(call is Returning) {
        assert forall|reply: Reply| #[trigger] heap.allows(call.wants(), reply) implies call.expects(
            reply,
        ) && heap::assured(
            call.after(reply),
            heap.after(call.wants(), reply),
            (many - 1) as nat,
            post,
        ) by {
            lemma_more_steps(
                call.after(reply),
                heap.after(call.wants(), reply),
                (few - 1) as nat,
                (many - 1) as nat,
                post,
            );
        }
    }
}

} // verus!
