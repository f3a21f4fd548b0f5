//! Whole series of calls, with what the C program does in between.

use crate::assurance;
use crate::call;
use crate::call::Call;
use crate::call::Outcome;
use crate::call::Reply;
use crate::heap;
use crate::heap::Heap;
use crate::laws;
use crate::layout;
use crate::layout::Layout;
use crate::promise;
use vstd::arithmetic::power2::*;
use vstd::prelude::*;

verus! {

/// A use of one of the C functions. `aligned_alloc` and `memalign` are one.
pub enum Request {
    Malloc { size: usize },
    Calloc { nmemb: usize, size: usize },
    Aligned { alignment: usize, size: usize },
    Posix { memptr: usize, alignment: usize, size: usize },
    Free { ptr: usize },
    Realloc { ptr: usize, size: usize },
}

impl Request {
    /// The call that the function starts.
    pub open spec fn call(self) -> Call {
        match self {
            Request::Malloc { size } => promise::malloc_call(size),
            Request::Calloc { nmemb, size } => promise::calloc_call(nmemb, size),
            Request::Aligned { alignment, size } => promise::aligned_call(alignment, size),
            Request::Posix { memptr, alignment, size } => promise::posix_call(
                memptr,
                alignment,
                size,
            ),
            Request::Free { ptr } => call::freeing(ptr, Outcome::Unit),
            Request::Realloc { ptr, size } => promise::realloc_call(ptr, size),
        }
    }

    /// Whether C allows this use: pointers handed in are null or live, and there
    /// is room for a pointer where one is to be stored.
    pub open spec fn proper(self, heap: Heap) -> bool {
        match self {
            Request::Posix { memptr, .. } => promise::holds_pointer(heap, memptr as int),
            Request::Free { ptr } => promise::freeable(heap, ptr),
            Request::Realloc { ptr, .. } => promise::freeable(heap, ptr),
            _ => true,
        }
    }

    /// What the function promises.
    pub open spec fn promised(self, before: Heap) -> spec_fn(Outcome, Heap) -> bool {
        match self {
            Request::Malloc { size } => promise::hands_out(
                before,
                size as int,
                layout::natural_alignment(),
                false,
            ),
            Request::Calloc { nmemb, size } => promise::hands_out(
                before,
                nmemb * size,
                layout::natural_alignment(),
                true,
            ),
            Request::Aligned { alignment, size } => promise::hands_out_aligned(
                before,
                alignment,
                size,
            ),
            Request::Posix { memptr, alignment, size } => promise::delivers(
                before,
                memptr,
                alignment,
                size,
            ),
            Request::Free { ptr } => promise::frees(before, ptr, Outcome::Unit),
            Request::Realloc { ptr, size } => promise::resizes(before, ptr, size),
        }
    }

    /// The user address that the program gets, from what was returned and from the
    /// memory that was left; zero if it gets none.
    pub open spec fn obtained(self, outcome: Outcome, left: Heap) -> int {
        match (self, outcome) {
            (Request::Posix { memptr, .. }, Outcome::Code(code)) => if code == 0 {
                left.word(memptr as int) as int
            } else {
                0
            },
            (_, Outcome::Pointer(p)) => p as int,
            _ => 0,
        }
    }

    /// The user address that the program gives up; zero if it gives up none. A
    /// `realloc` that fails gives up nothing.
    pub open spec fn given_up(self, outcome: Outcome) -> int {
        match self {
            Request::Free { ptr } => ptr as int,
            Request::Realloc { ptr, size } => if size == 0 || outcome != Outcome::Pointer(0) {
                ptr as int
            } else {
                0
            },
            _ => 0,
        }
    }

    /// Sound memory in which every allocation that the program did not give up is
    /// still there, with the same layout.
    pub open spec fn sound_after(self, before: Heap) -> spec_fn(Outcome, Heap) -> bool {
        |outcome: Outcome, after: Heap|
            {
                &&& after.wf()
                &&& forall|p: int| #[trigger]
                    before.live(p) && p != self.given_up(outcome) ==> after.live(p)
                        && after.layout_of(p) == before.layout_of(p)
            }
    }
}

/// Every proper use of any of the functions keeps its promise, within six replies.
pub proof fn every_call_keeps_its_promise(heap: Heap, request: Request)
    requires
        heap.wf(),
        request.proper(heap),
    ensures
        heap::assured(request.call(), heap, 6, request.promised(heap)),
{
    let post = request.promised(heap);
    layout::lemma_header_shape();
    match request {
        Request::Malloc { size } => {
            assurance::hands_out_assured(heap, size as int, layout::natural_alignment(), false);
            assurance::lemma_more_steps(request.call(), heap, 2, 6, post);
        },
        Request::Calloc { nmemb, size } => {
            assurance::hands_out_assured(heap, nmemb * size, layout::natural_alignment(), true);
            assurance::lemma_more_steps(request.call(), heap, 2, 6, post);
        },
        Request::Aligned { alignment, size } => {
            assurance::aligned_assured(heap, alignment, size);
            assurance::lemma_more_steps(request.call(), heap, 2, 6, post);
        },
        Request::Posix { memptr, alignment, size } => {
            assurance::delivers_assured(heap, memptr, alignment, size);
            assurance::lemma_more_steps(request.call(), heap, 3, 6, post);
        },
        Request::Free { ptr } => {
            assurance::frees_assured(heap, ptr, Outcome::Unit);
            assurance::lemma_more_steps(request.call(), heap, 2, 6, post);
        },
        Request::Realloc { ptr, size } => {
            assurance::resizes_assured(heap, ptr, size);
        },
    }
}

/// What becomes of blocks and allocations when `old` is given up and `new`
/// obtained; zero stands for neither.
pub open spec fn exchanged(before: Heap, after: Heap, old: int, new: int) -> bool {
    let less = if old == 0 {
        before.blocks
    } else {
        before.blocks.remove(before.block_of(old))
    };
    &&& after.wf()
    &&& old != 0 ==> !after.live(old)
    &&& new != 0 ==> !before.live(new) && after.live(new) && !before.blocks.contains_key(
        after.block_of(new),
    )
    &&& after.blocks == if new == 0 {
        less
    } else {
        less.insert(after.block_of(new), after.layout_of(new))
    }
    &&& forall|p: int| #[trigger]
        before.live(p) && p != old ==> after.live(p) && after.layout_of(p) == before.layout_of(p)
}

/// What a function promises comes down to an exchange of the pointer given up for
/// the pointer obtained.
pub proof fn every_call_is_an_exchange(
    before: Heap,
    request: Request,
    outcome: Outcome,
    after: Heap,
)
    requires
        before.wf(),
        request.proper(before),
        request.promised(before)(outcome, after),
    ensures
        exchanged(before, after, request.given_up(outcome), request.obtained(outcome, after)),
{
    let old = request.given_up(outcome);
    let new = request.obtained(outcome, after);
    layout::lemma_header_shape();
    if old != 0 {
        assurance::lemma_live_shape(before, old);
    }
    match request {
        Request::Malloc { size } => {
            lemma_handed_out(before, after, new, size as int, layout::natural_alignment());
        },
        Request::Calloc { nmemb, size } => {
            lemma_handed_out(before, after, new, nmemb * size, layout::natural_alignment());
        },
        Request::Aligned { alignment, size } => {
            if is_pow2(alignment as int) {
                lemma_handed_out(before, after, new, size as int, alignment as int);
            }
        },
        Request::Posix { memptr, alignment, size } => {
            let hole = promise::cell(memptr as int);
            if promise::posix_alignment(alignment) && size == 0 {
                assert(after.word(memptr as int) == 0);
                lemma_kept_as_such(before, after, 0, hole);
            } else if promise::posix_alignment(alignment) && outcome == Outcome::Code(
                call::ENOMEM,
            ) {
                lemma_handed_out(before, after, 0, size as int, alignment as int);
            } else if promise::posix_alignment(alignment) {
                lemma_kept_as_such(before, after, 0, hole);
            }
        },
        Request::Free { ptr } => {
            if ptr != 0 {
                lemma_kept_as_such(before, after, ptr as int, Set::empty());
            }
        },
        Request::Realloc { ptr, size } => {
            if ptr == 0 {
                lemma_handed_out(before, after, new, size as int, layout::natural_alignment());
            } else if size == 0 {
                lemma_kept_as_such(before, after, ptr as int, Set::empty());
            } else if new == 0 {
                let align = before.layout_of(ptr as int).align as int;
                lemma_handed_out(before, after, 0, size as int, align);
            } else {
                lemma_kept_as_such(before, after, ptr as int, Set::empty());
                lemma_move_is_an_exchange(before, after, ptr as int, new, size as int);
            }
        },
    }
}

/// Allocations that are kept are live with the same layout.
proof fn lemma_kept_as_such(before: Heap, after: Heap, old: int, hole: Set<int>)
    requires
        forall|p: int|
            before.live(p) && p != old ==> #[trigger] promise::kept(before, after, p, hole),
    ensures
        forall|p: int| #[trigger]
            before.live(p) && p != old ==> after.live(p) && after.layout_of(p)
                == before.layout_of(p),
{
    assert forall|p: int| #[trigger] before.live(p) && p != old implies after.live(p)
        && after.layout_of(p) == before.layout_of(p) by {
        assert(promise::kept(before, after, p, hole));
    }
}

/// An allocation handed out, or a request without a block, is an exchange for
/// nothing.
proof fn lemma_handed_out(before: Heap, after: Heap, new: int, size: int, alignment: int)
    requires
        before.wf(),
        if new == 0 {
            promise::unserved(before, after, size, alignment)
        } else {
            promise::granted(before, after, new, size, alignment, Set::empty())
        },
    ensures
        exchanged(before, after, 0, new),
{
    if new == 0 {
        laws::a_refusal_keeps_allocations(before, after, size, alignment);
    }
    lemma_never_null(before);
    lemma_kept_as_such(before, after, 0, Set::empty());
}

/// No allocation has the null address.
proof fn lemma_never_null(heap: Heap)
    requires
        heap.wf(),
    ensures
        !heap.live(0),
{
    layout::lemma_header_shape();
    if heap.live(0) {
        assurance::lemma_live_shape(heap, 0);
    }
}

/// A moved allocation is an exchange of its old address for its new one.
proof fn lemma_move_is_an_exchange(before: Heap, after: Heap, old: int, new: int, size: int)
    requires
        before.live(old),
        old != 0,
        promise::moved(before, after, old, new, size),
    ensures
        exchanged(before, after, old, new),
{
    lemma_kept_as_such(before, after, old, Set::empty());
    assert(after.blocks =~= before.blocks.remove(before.block_of(old)).insert(
        after.block_of(new),
        after.layout_of(new),
    ));
}

/// Every proper use of any of the functions is sound throughout, returns within
/// six replies, and leaves memory sound, with every allocation that was not given
/// up.
pub proof fn every_call_keeps_memory_sound(heap: Heap, request: Request)
    requires
        heap.wf(),
        request.proper(heap),
    ensures
        heap::assured(request.call(), heap, 6, request.sound_after(heap)),
{
    let strong = request.promised(heap);
    let weak = request.sound_after(heap);
    every_call_keeps_its_promise(heap, request);
    assert forall|outcome: Outcome, after: Heap| #[trigger] strong(outcome, after) implies weak(
        outcome,
        after,
    ) by {
        every_call_is_an_exchange(heap, request, outcome, after);
    }
    laws::assurance_weakens(request.call(), heap, 6, strong, weak);
}

/// One use of a function, from the call to its return, and what the program does
/// until the next one.
pub struct Event {
    /// The function that is used.
    pub request: Request,
    /// What came of the actions of the call, one after the other.
    pub replies: Seq<Reply>,
    /// Memory after the program has gone on.
    pub resumed: Heap,
}

impl Event {
    /// Memory when the call returns.
    pub open spec fn left(self, heap: Heap) -> Heap {
        laws::course(self.request.call(), heap, self.replies).1
    }

    /// What the call returns.
    pub open spec fn outcome(self, heap: Heap) -> Outcome {
        laws::course(self.request.call(), heap, self.replies).0->Returning_0
    }

    /// The pointers that the program holds afterwards.
    pub open spec fn holdings(self, heap: Heap, held: Set<int>) -> Set<int> {
        let old = self.request.given_up(self.outcome(heap));
        let new = self.request.obtained(self.outcome(heap), self.left(heap));
        if new == 0 {
            held.remove(old)
        } else {
            held.remove(old).insert(new)
        }
    }

    /// Whether this can happen in memory `heap` to a program that holds the
    /// pointers `held`: it frees and resizes null or what it holds, stores pointers
    /// where it may, the call returns after replies that can come of its actions,
    /// and the program goes on as it may.
    pub open spec fn occurs(self, heap: Heap, held: Set<int>) -> bool {
        &&& match self.request {
            Request::Posix { memptr, .. } => promise::holds_pointer(heap, memptr as int),
            Request::Free { ptr } => ptr == 0 || held.contains(ptr as int),
            Request::Realloc { ptr, .. } => ptr == 0 || held.contains(ptr as int),
            _ => true,
        }
        &&& laws::possible(self.request.call(), heap, self.replies)
        &&& laws::course(self.request.call(), heap, self.replies).0 is Returning
        &&& laws::program_step(self.left(heap), self.resumed)
    }
}

/// Whether a series of events can happen, one after the other.
pub open spec fn occur(heap: Heap, held: Set<int>, events: Seq<Event>) -> bool
    decreases events.len(),
{
    events.len() == 0 || events[0].occurs(heap, held) && occur(
        events[0].resumed,
        events[0].holdings(heap, held),
        events.drop_first(),
    )
}

/// Memory, and the pointers that the program holds, after a series of events.
pub open spec fn end(heap: Heap, held: Set<int>, events: Seq<Event>) -> (Heap, Set<int>)
    decreases events.len(),
{
    if events.len() == 0 {
        (heap, held)
    } else {
        end(events[0].resumed, events[0].holdings(heap, held), events.drop_first())
    }
}

/// Whether every action of a call is sound when it happens. A block, in
/// particular, is given back only where it is there, and with its own layout.
pub open spec fn sound_course(call: Call, heap: Heap, replies: Seq<Reply>) -> bool
    decreases replies.len(),
{
    &&& heap.permits(call.wants())
    &&& replies.len() == 0 || sound_course(
        call.after(replies[0]),
        heap.after(call.wants(), replies[0]),
        replies.drop_first(),
    )
}

/// Whether every action of every call in a series of events is sound when it
/// happens.
pub open spec fn all_sound(heap: Heap, held: Set<int>, events: Seq<Event>) -> bool
    decreases events.len(),
{
    events.len() == 0 || sound_course(events[0].request.call(), heap, events[0].replies)
        && all_sound(events[0].resumed, events[0].holdings(heap, held), events.drop_first())
}

/// Whether the blocks of `heap` are those of `base` and one for each pointer in
/// `held`, all of which are live, and the allocations that `origin` had in `base`
/// are still there.
pub open spec fn accounted(
    origin: Heap,
    base: Map<int, Layout>,
    heap: Heap,
    held: Set<int>,
) -> bool {
    &&& forall|p: int| #[trigger]
        held.contains(p) ==> heap.live(p) && !base.contains_key(heap.block_of(p))
    &&& forall|b: int| #[trigger]
        base.contains_key(b) ==> heap.blocks.contains_key(b) && heap.blocks[b] == base[b]
    &&& forall|b: int| #[trigger]
        heap.blocks.contains_key(b) && !base.contains_key(b) ==> exists|p: int| #[trigger]
            held.contains(p) && heap.block_of(p) == b
    &&& forall|q: int| #[trigger]
        origin.live(q) && base.contains_key(origin.block_of(q)) ==> heap.live(q) && heap.layout_of(
            q,
        ) == origin.layout_of(q)
}

/// Every action is sound in a call that is assured of anything.
proof fn lemma_sound_course(
    call: Call,
    heap: Heap,
    steps: nat,
    post: spec_fn(Outcome, Heap) -> bool,
    replies: Seq<Reply>,
)
    requires
        heap::assured(call, heap, steps, post),
        laws::possible(call, heap, replies),
    ensures
        sound_course(call, heap, replies),
    decreases replies.len(),
{
    if replies.len() > 0 {
        assert(heap.allows(call.wants(), replies[0]));
        lemma_sound_course(
            call.after(replies[0]),
            heap.after(call.wants(), replies[0]),
            (steps - 1) as nat,
            post,
            replies.drop_first(),
        );
    }
}

/// An exchange of pointers keeps the accounts.
proof fn lemma_exchange_accounted(
    origin: Heap,
    base: Map<int, Layout>,
    before: Heap,
    after: Heap,
    held: Set<int>,
    old: int,
    new: int,
)
    requires
        before.wf(),
        accounted(origin, base, before, held),
        exchanged(before, after, old, new),
        old == 0 || held.contains(old),
    ensures
        accounted(
            origin,
            base,
            after,
            if new == 0 {
                held.remove(old)
            } else {
                held.remove(old).insert(new)
            },
        ),
{
    let now = if new == 0 {
        held.remove(old)
    } else {
        held.remove(old).insert(new)
    };
    lemma_never_null(before);
    assert(!held.contains(0));
    assert forall|p: int| #[trigger] now.contains(p) implies after.live(p) && !base.contains_key(
        after.block_of(p),
    ) by {
        if p == new {
            if base.contains_key(after.block_of(new)) {
                assert(before.blocks.contains_key(after.block_of(new)));
            }
        } else {
            assert(held.contains(p));
            assert(before.live(p));
        }
    }
    assert forall|b: int| #[trigger] base.contains_key(b) implies after.blocks.contains_key(b)
        && after.blocks[b] == base[b] by {
        assert(before.blocks.contains_key(b));
        if old != 0 {
            assert(held.contains(old));
        }
    }
    assert forall|b: int| #[trigger]
        after.blocks.contains_key(b) && !base.contains_key(b) implies exists|p: int| #[trigger]
        now.contains(p) && after.block_of(p) == b by {
        if new != 0 && b == after.block_of(new) {
            assert(now.contains(new));
        } else {
            assert(before.blocks.contains_key(b));
            let p = choose|p: int| #[trigger] held.contains(p) && before.block_of(p) == b;
            assert(before.live(p));
            assert(p != old);
            assert(now.contains(p));
            assert(after.block_of(p) == b);
        }
    }
    assert forall|q: int| #[trigger]
        origin.live(q) && base.contains_key(origin.block_of(q)) implies after.live(q)
        && after.layout_of(q) == origin.layout_of(q) by {
        assert(before.live(q));
        if q == old {
            assert(held.contains(q));
        }
    }
}

/// One event keeps the accounts and memory sound, and all its actions are sound.
proof fn lemma_event(
    origin: Heap,
    base: Map<int, Layout>,
    heap: Heap,
    held: Set<int>,
    event: Event,
)
    requires
        heap.wf(),
        accounted(origin, base, heap, held),
        event.occurs(heap, held),
    ensures
        sound_course(event.request.call(), heap, event.replies),
        event.resumed.wf(),
        accounted(origin, base, event.resumed, event.holdings(heap, held)),
{
    let request = event.request;
    let post = request.promised(heap);
    let outcome = event.outcome(heap);
    let left = event.left(heap);
    let now = event.holdings(heap, held);
    assert(request.proper(heap)) by {
        match request {
            Request::Free { ptr } => {
                if ptr != 0 {
                    assert(held.contains(ptr as int));
                }
            },
            Request::Realloc { ptr, .. } => {
                if ptr != 0 {
                    assert(held.contains(ptr as int));
                }
            },
            _ => {},
        }
    }
    every_call_keeps_its_promise(heap, request);
    lemma_sound_course(request.call(), heap, 6, post, event.replies);
    laws::assurance_covers_every_course(request.call(), heap, 6, post, event.replies);
    every_call_is_an_exchange(heap, request, outcome, left);
    let old = request.given_up(outcome);
    let new = request.obtained(outcome, left);
    lemma_exchange_accounted(origin, base, heap, left, held, old, new);
    laws::program_steps_keep_allocations(left, event.resumed);
    assert forall|p: int| #[trigger] now.contains(p) implies event.resumed.live(p)
        && !base.contains_key(event.resumed.block_of(p)) by {
        assert(left.live(p));
    }
    assert forall|b: int| #[trigger]
        event.resumed.blocks.contains_key(b) && !base.contains_key(b) implies exists|p: int|
        #[trigger]
        now.contains(p) && event.resumed.block_of(p) == b by {
        assert(left.blocks.contains_key(b));
        let p = choose|p: int| #[trigger] now.contains(p) && left.block_of(p) == b;
        assert(left.live(p));
        assert(now.contains(p) && event.resumed.block_of(p) == b);
    }
    assert forall|q: int| #[trigger]
        origin.live(q) && base.contains_key(origin.block_of(q)) implies event.resumed.live(q)
        && event.resumed.layout_of(q) == origin.layout_of(q) by {
        assert(left.live(q));
    }
}

/// Whatever series of calls a program makes that frees and resizes only what it
/// holds: every action is sound when it happens, memory stays sound, and the blocks
/// stay accounted for. There is one for each pointer held, and the others are those
/// that were there before, with the allocations in them.
pub proof fn a_series_of_calls_is_accounted_for(
    origin: Heap,
    base: Map<int, Layout>,
    heap: Heap,
    held: Set<int>,
    events: Seq<Event>,
)
    requires
        heap.wf(),
        accounted(origin, base, heap, held),
        occur(heap, held, events),
    ensures
        all_sound(heap, held, events),
        end(heap, held, events).0.wf(),
        accounted(origin, base, end(heap, held, events).0, end(heap, held, events).1),
    decreases events.len(),
{
    if events.len() > 0 {
        lemma_event(origin, base, heap, held, events[0]);
        a_series_of_calls_is_accounted_for(
            origin,
            base,
            events[0].resumed,
            events[0].holdings(heap, held),
            events.drop_first(),
        );
    }
}

/// Once a program has given up every pointer that it obtained in a series of calls,
/// the allocator's blocks are what they were before it, every allocation that was
/// there is still there, and every block was given back while it was there and with
/// its own layout.
pub proof fn giving_everything_up_restores_the_blocks(heap: Heap, events: Seq<Event>)
    requires
        heap.wf(),
        occur(heap, Set::empty(), events),
        end(heap, Set::empty(), events).1 == Set::<int>::empty(),
    ensures
        all_sound(heap, Set::empty(), events),
        end(heap, Set::empty(), events).0.wf(),
        end(heap, Set::empty(), events).0.blocks == heap.blocks,
        forall|p: int| #[trigger]
            heap.live(p) ==> end(heap, Set::empty(), events).0.live(p) && end(
                heap,
                Set::empty(),
                events,
            ).0.layout_of(p) == heap.layout_of(p),
{
    let last = end(heap, Set::empty(), events).0;
    a_series_of_calls_is_accounted_for(heap, heap.blocks, heap, Set::empty(), events);
    assert(last.blocks =~= heap.blocks);
}

} // verus!
