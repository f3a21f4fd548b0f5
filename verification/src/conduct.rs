//! What the functions do, said of their arguments and of the machine alone: the
//! words and alignments of the target, the bound on a block, and each access from
//! the call to its return.
//!
//! Many statements take the distance `d` from the start of a block to its user
//! data. It is the multiple of the block's alignment that leaves just enough room
//! for a header of two words.

use crate::assurance;
use crate::call;
use crate::call::Action;
use crate::call::Call;
use crate::call::Goal;
use crate::call::Outcome;
use crate::call::Reply;
use crate::heap;
use crate::heap::Datum;
use crate::heap::Heap;
use crate::laws;
use crate::layout;
use crate::layout::Layout;
use crate::promise;
use vstd::arithmetic::div_mod::*;
use vstd::arithmetic::power2::*;
use vstd::layout::*;
use vstd::prelude::*;

verus! {

/// The measures of the target: a header is two words, aligned as a word; the
/// default alignment is that of the widest integer.
pub proof fn target_measures()
    ensures
        layout::word_len() == size_of::<usize>(),
        layout::header_span() == 2 * size_of::<usize>(),
        layout::header_alignment() == align_of::<usize>(),
        layout::natural_alignment() == align_of::<u128>(),
        call::EINVAL == 22,
        call::ENOMEM == 12,
{
}

/// `smaller` and `larger` pick one of two numbers, and the right one.
pub proof fn smaller_and_larger(a: int, b: int)
    ensures
        layout::smaller(a, b) <= a,
        layout::smaller(a, b) <= b,
        layout::smaller(a, b) == a || layout::smaller(a, b) == b,
        layout::larger(a, b) >= a,
        layout::larger(a, b) >= b,
        layout::larger(a, b) == a || layout::larger(a, b) == b,
{
}

/// A block has exactly the alignment asked for, or that of the header where the
/// request asks for less.
pub proof fn block_alignments(alignment: int)
    ensures
        alignment >= align_of::<usize>() ==> layout::block_alignment(alignment) == alignment,
        alignment < align_of::<usize>() ==> layout::block_alignment(alignment)
            == align_of::<usize>(),
{
}

/// User data starts at the first multiple of the alignment behind two words.
pub proof fn data_starts(align: int, d: int)
    requires
        0 < align,
        d % align == 0,
        2 * size_of::<usize>() <= d < 2 * size_of::<usize>() + align,
    ensures
        layout::data_start(align) == d,
{
    layout::lemma_header_shape();
    layout::lemma_round_up(layout::header_span(), align);
    let r = layout::data_start(align);
    if r != d {
        lemma_mod_equivalence(d, r, align);
        lemma_small_mod((d - r) as nat, align as nat);
    }
}

/// Which requests can be put to the allocator, and for what block: those for some
/// bytes whose block, in whole steps of its alignment, does not exceed
/// `isize::MAX`.
pub proof fn servable_blocks(size: int, alignment: int, a: int, d: int)
    requires
        0 <= size,
        alignment <= usize::MAX,
        a == if alignment >= align_of::<usize>() {
            alignment
        } else {
            align_of::<usize>() as int
        },
        d % a == 0,
        2 * size_of::<usize>() <= d < 2 * size_of::<usize>() + a,
    ensures
        layout::servable(size, alignment) <==> 0 < size && is_pow2(a) && d + size <= isize::MAX
            - isize::MAX as int % a,
        layout::servable(size, alignment) ==> {
            &&& layout::block_layout(size, alignment).size == d + size
            &&& layout::block_layout(size, alignment).align == a
        },
{
    layout::lemma_header_shape();
    data_starts(a, d);
    laws::layout_bound(d + size, a);
    if layout::servable(size, alignment) {
        layout::lemma_servable(size, alignment);
    }
}

/// What each state of a call asks for.
pub proof fn each_state_asks(call: Call)
    requires
        call.wf(),
    ensures
        call matches Call::Requesting { layout, zero, goal: _ } ==> call.wants() == (
        Action::Alloc { layout, zero }),
        call matches Call::Tagging { user, header, goal: _ } ==> 2 * size_of::<usize>() <= user
            && call.wants() == (Action::WriteHeader {
            at: (user - 2 * size_of::<usize>()) as usize,
            header,
        }),
        call matches Call::Delivering { at, value } ==> call.wants() == (Action::Store {
            at,
            value,
        }),
        call matches Call::Copying { from, to, len } ==> call.wants() == (Action::Copy {
            from,
            to,
            len,
        }),
        call matches Call::Measuring { user, size: _ } ==> 2 * size_of::<usize>() <= user
            && call.wants() == (Action::ReadHeader {
            at: (user - 2 * size_of::<usize>()) as usize,
        }),
        call matches Call::Recovering { user, outcome: _ } ==> 2 * size_of::<usize>() <= user
            && call.wants() == (Action::ReadHeader {
            at: (user - 2 * size_of::<usize>()) as usize,
        }),
        call matches Call::Releasing { at, layout, outcome: _ } ==> call.wants() == (
        Action::Dealloc { at, layout }),
        call matches Call::Returning(outcome) ==> call.wants() == Action::Return(outcome),
{
}

/// Which replies each state of a call takes. Where a header is read, `d` is the
/// distance that it stands for.
pub proof fn each_state_takes(call: Call, reply: Reply, d: int)
    requires
        reply matches Reply::Header(header) ==> header.align != 0 ==> {
            &&& d % (header.align as int) == 0
            &&& 2 * size_of::<usize>() <= d < 2 * size_of::<usize>() + header.align
        },
    ensures
        call matches Call::Requesting { layout, zero: _, goal: _ } ==> (call.expects(reply) <==> (
        reply matches Reply::Address(raw) && (raw == 0 || raw + layout.size <= usize::MAX + 1))),
        call matches Call::Tagging { .. } ==> (call.expects(reply) <==> reply == Reply::Done),
        call matches Call::Delivering { .. } ==> (call.expects(reply) <==> reply == Reply::Done),
        call matches Call::Copying { .. } ==> (call.expects(reply) <==> reply == Reply::Done),
        call matches Call::Measuring { .. } ==> (call.expects(reply) <==> (
        reply matches Reply::Header(header) && header.align != 0 && d <= header.size)),
        call matches Call::Recovering { user, outcome: _ } ==> (call.expects(reply) <==> (
        reply matches Reply::Header(header) && header.align != 0 && d <= user)),
        call matches Call::Releasing { .. } ==> (call.expects(reply) <==> reply == Reply::Done),
        call matches Call::Returning(_) ==> !call.expects(reply),
{
    if let Reply::Header(header) = reply {
        if header.align != 0 {
            data_starts(header.align as int, d);
        }
    }
}

/// How each state that waits only for its action to be carried out goes on.
pub proof fn each_state_goes_on(call: Call)
    ensures
        call matches Call::Tagging { user, header: _, goal } ==> call.after(Reply::Done)
            == match goal {
            Goal::Hand => Call::Returning(Outcome::Pointer(user)),
            Goal::Deliver { at } => Call::Delivering { at, value: user },
            Goal::Replace { from, len } => Call::Copying { from, to: user, len },
        },
        call matches Call::Delivering { .. } ==> call.after(Reply::Done) == Call::Returning(
            Outcome::Code(0),
        ),
        call matches Call::Copying { from, to, len: _ } ==> from != 0 ==> call.after(Reply::Done)
            == (Call::Recovering { user: from, outcome: Outcome::Pointer(to) }),
        call matches Call::Releasing { at: _, layout: _, outcome } ==> call.after(Reply::Done)
            == Call::Returning(outcome),
{
}

/// How a requesting state goes on: with the header, `d` bytes into the block less
/// two words, or without a block.
pub proof fn a_request_goes_on(layout: Layout, zero: bool, goal: Goal, raw: usize, d: int)
    requires
        layout.align != 0,
        d % (layout.align as int) == 0,
        2 * size_of::<usize>() <= d < 2 * size_of::<usize>() + layout.align,
        d < layout.size,
        raw + layout.size <= usize::MAX + 1,
    ensures
        ({
            let call = Call::Requesting { layout, zero, goal };
            &&& raw != 0 ==> raw + d <= usize::MAX && call.after(Reply::Address(raw)) == (
            Call::Tagging { user: (raw + d) as usize, header: layout, goal })
            &&& call.after(Reply::Address(0)) == match goal {
                Goal::Hand => Call::Returning(Outcome::Pointer(0)),
                Goal::Deliver { .. } => Call::Returning(Outcome::Code(12)),
                Goal::Replace { .. } => Call::Returning(Outcome::Pointer(0)),
            }
        }),
{
    data_starts(layout.align as int, d);
}

/// How a state that has read the header of a block to free goes on: it gives the
/// block back that starts `d` bytes in front of the user address.
pub proof fn a_recovery_goes_on(user: usize, outcome: Outcome, header: Layout, d: int)
    requires
        header.align != 0,
        d % (header.align as int) == 0,
        2 * size_of::<usize>() <= d < 2 * size_of::<usize>() + header.align,
        d <= user,
    ensures
        (Call::Recovering { user, outcome }).after(Reply::Header(header)) == (Call::Releasing {
            at: (user - d) as usize,
            layout: header,
            outcome,
        }),
{
    data_starts(header.align as int, d);
}

/// From a call of `malloc` to its return. A request for some bytes, whose block in
/// whole steps of its alignment is not above `isize::MAX`, is put to the allocator.
/// If that gives a block at `raw`, the header goes in front of `raw + d`, and that
/// is the address returned; null is returned otherwise.
pub proof fn malloc_step_by_step(size: usize, a: int, d: int, raw: usize)
    requires
        a == if align_of::<u128>() >= align_of::<usize>() {
            align_of::<u128>() as int
        } else {
            align_of::<usize>() as int
        },
        d % a == 0,
        2 * size_of::<usize>() <= d < 2 * size_of::<usize>() + a,
    ensures
        ({
            let call = promise::malloc_call(size);
            let block = Layout { size: (d + size) as usize, align: a as usize };
            let asked = 0 < size && d + size <= isize::MAX - isize::MAX as int % a;
            &&& !asked ==> call.wants() == Action::Return(Outcome::Pointer(0))
            &&& asked ==> {
                &&& call.wants() == (Action::Alloc { layout: block, zero: false })
                &&& block.size == d + size
                &&& block.align == a
                &&& call.expects(Reply::Address(0))
                &&& call.after(Reply::Address(0)).wants() == Action::Return(Outcome::Pointer(0))
            }
            &&& asked && raw != 0 && raw + d + size <= usize::MAX + 1 ==> {
                let tagging = call.after(Reply::Address(raw));
                &&& call.expects(Reply::Address(raw))
                &&& tagging.wants() == (Action::WriteHeader {
                    at: (raw + d - 2 * size_of::<usize>()) as usize,
                    header: block,
                })
                &&& tagging.expects(Reply::Done)
                &&& tagging.after(Reply::Done).wants() == Action::Return(
                    Outcome::Pointer((raw + d) as usize),
                )
            }
        }),
{
    layout::lemma_header_shape();
    lemma_asked(size as int, layout::natural_alignment(), false, Goal::Hand, a, d, raw);
}

/// From a call of `calloc` to its return: as `malloc` of `nmemb * size` bytes, but
/// the block is asked for filled with zero bytes. The product is the true one, not
/// one that has wrapped.
pub proof fn calloc_step_by_step(nmemb: usize, size: usize, a: int, d: int, raw: usize)
    requires
        a == if align_of::<u128>() >= align_of::<usize>() {
            align_of::<u128>() as int
        } else {
            align_of::<usize>() as int
        },
        d % a == 0,
        2 * size_of::<usize>() <= d < 2 * size_of::<usize>() + a,
    ensures
        ({
            let call = promise::calloc_call(nmemb, size);
            let total = nmemb * size;
            let block = Layout { size: (d + total) as usize, align: a as usize };
            let asked = 0 < total && d + total <= isize::MAX - isize::MAX as int % a;
            &&& !asked ==> call.wants() == Action::Return(Outcome::Pointer(0))
            &&& asked ==> {
                &&& call.wants() == (Action::Alloc { layout: block, zero: true })
                &&& block.size == d + total
                &&& block.align == a
                &&& call.expects(Reply::Address(0))
                &&& call.after(Reply::Address(0)).wants() == Action::Return(Outcome::Pointer(0))
            }
            &&& asked && raw != 0 && raw + d + total <= usize::MAX + 1 ==> {
                let tagging = call.after(Reply::Address(raw));
                &&& call.expects(Reply::Address(raw))
                &&& tagging.wants() == (Action::WriteHeader {
                    at: (raw + d - 2 * size_of::<usize>()) as usize,
                    header: block,
                })
                &&& tagging.expects(Reply::Done)
                &&& tagging.after(Reply::Done).wants() == Action::Return(
                    Outcome::Pointer((raw + d) as usize),
                )
            }
        }),
{
    layout::lemma_header_shape();
    assert(0 <= nmemb * size) by (nonlinear_arith);
    lemma_asked(nmemb * size, layout::natural_alignment(), true, Goal::Hand, a, d, raw);
}

/// From a call of `aligned_alloc` or `memalign` to its return. Every power of two
/// is taken, and nothing else.
pub proof fn aligned_alloc_step_by_step(
    alignment: usize,
    size: usize,
    a: int,
    d: int,
    raw: usize,
)
    requires
        a == if alignment >= align_of::<usize>() {
            alignment as int
        } else {
            align_of::<usize>() as int
        },
        d % a == 0,
        2 * size_of::<usize>() <= d < 2 * size_of::<usize>() + a,
    ensures
        ({
            let call = promise::aligned_call(alignment, size);
            let block = Layout { size: (d + size) as usize, align: a as usize };
            let asked = is_pow2(alignment as int) && 0 < size && d + size <= isize::MAX
                - isize::MAX as int % a;
            &&& !asked ==> call.wants() == Action::Return(Outcome::Pointer(0))
            &&& asked ==> {
                &&& call.wants() == (Action::Alloc { layout: block, zero: false })
                &&& block.size == d + size
                &&& block.align == a
                &&& call.expects(Reply::Address(0))
                &&& call.after(Reply::Address(0)).wants() == Action::Return(Outcome::Pointer(0))
            }
            &&& asked && raw != 0 && raw + d + size <= usize::MAX + 1 ==> {
                let tagging = call.after(Reply::Address(raw));
                &&& call.expects(Reply::Address(raw))
                &&& tagging.wants() == (Action::WriteHeader {
                    at: (raw + d - 2 * size_of::<usize>()) as usize,
                    header: block,
                })
                &&& tagging.expects(Reply::Done)
                &&& tagging.after(Reply::Done).wants() == Action::Return(
                    Outcome::Pointer((raw + d) as usize),
                )
            }
        }),
{
    layout::lemma_header_shape();
    if is_pow2(alignment as int) {
        lemma_asked(size as int, alignment as int, false, Goal::Hand, a, d, raw);
    }
}

/// From a call of `posix_memalign` to its return. The alignments that it takes are
/// the powers of two from the size of a pointer on; every other one gives `EINVAL`
/// at once. A size of zero stores null. A request that is not put to the allocator,
/// or that is refused, gives `ENOMEM`, and nothing is stored.
pub proof fn posix_memalign_step_by_step(
    memptr: usize,
    alignment: usize,
    size: usize,
    a: int,
    d: int,
    raw: usize,
)
    requires
        a == if alignment >= align_of::<usize>() {
            alignment as int
        } else {
            align_of::<usize>() as int
        },
        d % a == 0,
        2 * size_of::<usize>() <= d < 2 * size_of::<usize>() + a,
    ensures
        ({
            let call = promise::posix_call(memptr, alignment, size);
            let block = Layout { size: (d + size) as usize, align: a as usize };
            let taken = is_pow2(alignment as int) && alignment >= size_of::<usize>();
            let asked = taken && 0 < size && d + size <= isize::MAX - isize::MAX as int % a;
            let storing = call.after(Reply::Address(raw)).after(Reply::Done);
            &&& !taken ==> call.wants() == Action::Return(Outcome::Code(22))
            &&& taken ==> call.wants() != Action::Return(Outcome::Code(22))
            &&& taken && size == 0 ==> {
                &&& call.wants() == (Action::Store { at: memptr, value: 0 })
                &&& call.expects(Reply::Done)
                &&& call.after(Reply::Done).wants() == Action::Return(Outcome::Code(0))
            }
            &&& taken && size != 0 && !asked ==> call.wants() == Action::Return(Outcome::Code(12))
            &&& asked ==> {
                &&& call.wants() == (Action::Alloc { layout: block, zero: false })
                &&& block.size == d + size
                &&& block.align == a
                &&& call.expects(Reply::Address(0))
                &&& call.after(Reply::Address(0)).wants() == Action::Return(Outcome::Code(12))
            }
            &&& asked && raw != 0 && raw + d + size <= usize::MAX + 1 ==> {
                &&& call.expects(Reply::Address(raw))
                &&& call.after(Reply::Address(raw)).wants() == (Action::WriteHeader {
                    at: (raw + d - 2 * size_of::<usize>()) as usize,
                    header: block,
                })
                &&& call.after(Reply::Address(raw)).expects(Reply::Done)
                &&& storing.wants() == (Action::Store { at: memptr, value: (raw + d) as usize })
                &&& storing.expects(Reply::Done)
                &&& storing.after(Reply::Done).wants() == Action::Return(Outcome::Code(0))
            }
        }),
{
    layout::lemma_header_shape();
    lemma_posix_alignment(alignment);
    if is_pow2(alignment as int) && alignment >= size_of::<usize>() && size != 0 {
        lemma_asked(
            size as int,
            alignment as int,
            false,
            Goal::Deliver { at: memptr },
            a,
            d,
            raw,
        );
    }
}

/// From a call of `free` to its return. The header is read in front of the pointer,
/// and the block that it describes is given back, `d` bytes in front of the
/// pointer, with the layout of the header.
pub proof fn free_step_by_step(ptr: usize, header: Layout, d: int)
    requires
        ptr == 0 || 2 * size_of::<usize>() <= ptr,
        header.align != 0,
        d % (header.align as int) == 0,
        2 * size_of::<usize>() <= d < 2 * size_of::<usize>() + header.align,
        d <= ptr || ptr == 0,
    ensures
        ({
            let call = call::freeing(ptr, Outcome::Unit);
            let releasing = call.after(Reply::Header(header));
            &&& ptr == 0 ==> call.wants() == Action::Return(Outcome::Unit)
            &&& ptr != 0 ==> {
                &&& call.wants() == (Action::ReadHeader {
                    at: (ptr - 2 * size_of::<usize>()) as usize,
                })
                &&& call.expects(Reply::Header(header))
                &&& releasing.wants() == (Action::Dealloc {
                    at: (ptr - d) as usize,
                    layout: header,
                })
                &&& releasing.expects(Reply::Done)
                &&& releasing.after(Reply::Done).wants() == Action::Return(Outcome::Unit)
            }
        }),
{
    data_starts(header.align as int, d);
}

/// How a call of `realloc` starts. With null it does what `malloc` does, and to no
/// bytes it frees as `free` does and returns null. Otherwise it reads the header,
/// and either asks for a block of the header's alignment or returns null at once.
/// Here `b` is the distance in the old block, `d` that in the new one.
pub proof fn realloc_starts(ptr: usize, size: usize, header: Layout, b: int, a: int, d: int)
    requires
        ptr == 0 || 2 * size_of::<usize>() <= ptr,
        header.align != 0,
        b % (header.align as int) == 0,
        2 * size_of::<usize>() <= b < 2 * size_of::<usize>() + header.align,
        b <= header.size,
        a == if header.align >= align_of::<usize>() {
            header.align as int
        } else {
            align_of::<usize>() as int
        },
        d % a == 0,
        2 * size_of::<usize>() <= d < 2 * size_of::<usize>() + a,
    ensures
        ({
            let call = promise::realloc_call(ptr, size);
            let next = call.after(Reply::Header(header));
            let block = Layout { size: (d + size) as usize, align: a as usize };
            let asked = is_pow2(a) && d + size <= isize::MAX - isize::MAX as int % a;
            &&& ptr == 0 ==> call == promise::malloc_call(size)
            &&& ptr != 0 ==> call.wants() == (Action::ReadHeader {
                at: (ptr - 2 * size_of::<usize>()) as usize,
            })
            &&& ptr != 0 && size != 0 ==> call.expects(Reply::Header(header))
            &&& ptr != 0 && size == 0 && b <= ptr ==> {
                &&& call.expects(Reply::Header(header))
                &&& next.wants() == (Action::Dealloc { at: (ptr - b) as usize, layout: header })
                &&& next.expects(Reply::Done)
                &&& next.after(Reply::Done).wants() == Action::Return(Outcome::Pointer(0))
            }
            &&& ptr != 0 && size != 0 && !asked ==> next.wants() == Action::Return(
                Outcome::Pointer(0),
            )
            &&& ptr != 0 && size != 0 && asked ==> {
                &&& next.wants() == (Action::Alloc { layout: block, zero: false })
                &&& block.size == d + size
                &&& block.align == a
                &&& next.expects(Reply::Address(0))
                &&& next.after(Reply::Address(0)).wants() == Action::Return(Outcome::Pointer(0))
            }
        }),
{
    layout::lemma_header_shape();
    data_starts(header.align as int, b);
    if ptr != 0 && size != 0 {
        lemma_asked(
            size as int,
            header.align as int,
            false,
            Goal::Replace {
                from: ptr,
                len: layout::smaller(header.user_len(), size as int) as usize,
            },
            a,
            d,
            1,
        );
    }
}

/// How a call of `realloc` goes on with a new block at `raw`. The new header is
/// written, the bytes that both sizes reach to are copied, all of them and no more,
/// the old block is given back, and the new user address returned.
pub proof fn realloc_moves(
    ptr: usize,
    size: usize,
    header: Layout,
    b: int,
    a: int,
    d: int,
    raw: usize,
    len: usize,
)
    requires
        2 * size_of::<usize>() <= ptr,
        size != 0,
        header.align != 0,
        b % (header.align as int) == 0,
        2 * size_of::<usize>() <= b < 2 * size_of::<usize>() + header.align,
        b <= header.size,
        a == if header.align >= align_of::<usize>() {
            header.align as int
        } else {
            align_of::<usize>() as int
        },
        d % a == 0,
        2 * size_of::<usize>() <= d < 2 * size_of::<usize>() + a,
        is_pow2(a),
        d + size <= isize::MAX - isize::MAX as int % a,
        raw != 0,
        raw + d + size <= usize::MAX + 1,
        len <= header.size - b,
        len <= size,
        len == header.size - b || len == size,
    ensures
        ({
            let new = (raw + d) as usize;
            let requesting = promise::realloc_call(ptr, size).after(Reply::Header(header));
            let tagging = requesting.after(Reply::Address(raw));
            let copying = tagging.after(Reply::Done);
            let reading = copying.after(Reply::Done);
            let releasing = reading.after(Reply::Header(header));
            &&& new == raw + d
            &&& requesting.expects(Reply::Address(raw))
            &&& tagging.wants() == (Action::WriteHeader {
                at: (raw + d - 2 * size_of::<usize>()) as usize,
                header: Layout { size: (d + size) as usize, align: a as usize },
            })
            &&& tagging.expects(Reply::Done)
            &&& copying.wants() == (Action::Copy { from: ptr, to: new, len })
            &&& copying.expects(Reply::Done)
            &&& reading.wants() == (Action::ReadHeader {
                at: (ptr - 2 * size_of::<usize>()) as usize,
            })
            &&& b <= ptr ==> {
                &&& reading.expects(Reply::Header(header))
                &&& releasing.wants() == (Action::Dealloc {
                    at: (ptr - b) as usize,
                    layout: header,
                })
                &&& releasing.expects(Reply::Done)
                &&& releasing.after(Reply::Done).wants() == Action::Return(Outcome::Pointer(new))
            }
        }),
{
    layout::lemma_header_shape();
    data_starts(header.align as int, b);
    lemma_asked(
        size as int,
        header.align as int,
        false,
        Goal::Replace { from: ptr, len },
        a,
        d,
        raw,
    );
}

/// What follows from the arguments of an allocating call, for any goal.
proof fn lemma_asked(
    size: int,
    alignment: int,
    zero: bool,
    goal: Goal,
    a: int,
    d: int,
    raw: usize,
)
    requires
        0 <= size,
        alignment <= usize::MAX,
        a == if alignment >= align_of::<usize>() {
            alignment
        } else {
            align_of::<usize>() as int
        },
        d % a == 0,
        2 * size_of::<usize>() <= d < 2 * size_of::<usize>() + a,
    ensures
        ({
            let call = call::allocating(size, alignment, zero, goal);
            let block = Layout { size: (d + size) as usize, align: a as usize };
            let asked = 0 < size && is_pow2(a) && d + size <= isize::MAX - isize::MAX as int % a;
            &&& !asked ==> call == goal.missed()
            &&& asked ==> {
                &&& call == (Call::Requesting { layout: block, zero, goal })
                &&& block.size == d + size
                &&& block.align == a
                &&& call.after(Reply::Address(0)) == goal.missed()
            }
            &&& asked && raw != 0 && raw + d + size <= usize::MAX + 1 ==> {
                &&& raw + d <= usize::MAX
                &&& call.after(Reply::Address(raw)) == (Call::Tagging {
                    user: (raw + d) as usize,
                    header: block,
                    goal,
                })
            }
        }),
{
    layout::lemma_header_shape();
    servable_blocks(size, alignment, a, d);
    data_starts(a, d);
    if is_pow2(a) {
        laws::layout_bound(d + size, a);
        layout::lemma_pow2_divides(a, a);
        lemma_mod_bound(isize::MAX as int, a);
    }
}

/// A power of two is a multiple of the pointer size exactly where it is not below
/// it.
proof fn lemma_posix_alignment(alignment: usize)
    ensures
        promise::posix_alignment(alignment) <==> is_pow2(alignment as int) && alignment
            >= size_of::<usize>(),
{
    layout::lemma_header_shape();
    if is_pow2(alignment as int) {
        layout::lemma_pow2_divides(alignment as int, alignment as int);
        if layout::word_len() <= alignment {
            layout::lemma_pow2_divides(layout::word_len(), alignment as int);
        } else {
            lemma_small_mod(alignment as nat, layout::word_len() as nat);
        }
    }
}

/// `posix_memalign` returns `EINVAL` at once for every alignment that is below the
/// pointer size or no power of two, and for no other.
pub proof fn posix_alignments(memptr: usize, alignment: usize, size: usize)
    ensures
        promise::posix_call(memptr, alignment, size) == Call::Returning(Outcome::Code(22)) <==> !(
        is_pow2(alignment as int) && alignment >= size_of::<usize>()),
{
    lemma_posix_alignment(alignment);
}

/// `malloc` of some bytes that leave room up to `isize::MAX` for a header and two
/// steps of the alignment asks the allocator. It returns null only where that
/// refuses, and then nothing else has changed.
pub proof fn malloc_fails_only_when_refused(heap: Heap, size: usize)
    requires
        heap.wf(),
        0 < size,
        size + 2 * size_of::<usize>() + 2 * align_of::<u128>() <= isize::MAX,
        size + 2 * size_of::<usize>() + 2 * align_of::<usize>() <= isize::MAX,
    ensures
        promise::malloc_call(size).wants() is Alloc,
        heap::assured(
            promise::malloc_call(size),
            heap,
            2,
            |outcome: Outcome, after: Heap|
                outcome matches Outcome::Pointer(p) && if p == 0 {
                    &&& after.refusals == heap.refusals + 1
                    &&& after.blocks == heap.blocks
                    &&& after.data == heap.data
                } else {
                    &&& after.refusals == heap.refusals
                    &&& after.live(p as int)
                    &&& after.user_len(p as int) == size
                    &&& p as int % align_of::<u128>() as int == 0
                },
        ),
{
    layout::lemma_header_shape();
    laws::servable_requests(size as int, layout::natural_alignment());
    assurance::hands_out_assured(heap, size as int, layout::natural_alignment(), false);
    laws::assurance_weakens(
        promise::malloc_call(size),
        heap,
        2,
        promise::hands_out(heap, size as int, layout::natural_alignment(), false),
        |outcome: Outcome, after: Heap|
            outcome matches Outcome::Pointer(p) && if p == 0 {
                &&& after.refusals == heap.refusals + 1
                &&& after.blocks == heap.blocks
                &&& after.data == heap.data
            } else {
                &&& after.refusals == heap.refusals
                &&& after.live(p as int)
                &&& after.user_len(p as int) == size
                &&& p as int % align_of::<u128>() as int == 0
            },
    );
}

/// The same of `calloc`, whose bytes are all zero.
pub proof fn calloc_fails_only_when_refused(heap: Heap, nmemb: usize, size: usize)
    requires
        heap.wf(),
        0 < nmemb * size,
        nmemb * size + 2 * size_of::<usize>() + 2 * align_of::<u128>() <= isize::MAX,
        nmemb * size + 2 * size_of::<usize>() + 2 * align_of::<usize>() <= isize::MAX,
    ensures
        promise::calloc_call(nmemb, size).wants() is Alloc,
        heap::assured(
            promise::calloc_call(nmemb, size),
            heap,
            2,
            |outcome: Outcome, after: Heap|
                outcome matches Outcome::Pointer(p) && if p == 0 {
                    &&& after.refusals == heap.refusals + 1
                    &&& after.blocks == heap.blocks
                    &&& after.data == heap.data
                } else {
                    &&& after.refusals == heap.refusals
                    &&& after.live(p as int)
                    &&& after.user_len(p as int) == nmemb * size
                    &&& p as int % align_of::<u128>() as int == 0
                    &&& forall|i: int|
                        0 <= i < nmemb * size ==> #[trigger] (after.data)(p + i) == Datum::Byte(0)
                },
        ),
{
    let total = nmemb * size;
    layout::lemma_header_shape();
    laws::servable_requests(total, layout::natural_alignment());
    assurance::hands_out_assured(heap, total, layout::natural_alignment(), true);
    laws::assurance_weakens(
        promise::calloc_call(nmemb, size),
        heap,
        2,
        promise::hands_out(heap, total, layout::natural_alignment(), true),
        |outcome: Outcome, after: Heap|
            outcome matches Outcome::Pointer(p) && if p == 0 {
                &&& after.refusals == heap.refusals + 1
                &&& after.blocks == heap.blocks
                &&& after.data == heap.data
            } else {
                &&& after.refusals == heap.refusals
                &&& after.live(p as int)
                &&& after.user_len(p as int) == nmemb * size
                &&& p as int % align_of::<u128>() as int == 0
                &&& forall|i: int|
                    0 <= i < nmemb * size ==> #[trigger] (after.data)(p + i) == Datum::Byte(0)
            },
    );
}

/// The same of `aligned_alloc` and `memalign`, for every power of two.
pub proof fn aligned_alloc_fails_only_when_refused(heap: Heap, alignment: usize, size: usize)
    requires
        heap.wf(),
        is_pow2(alignment as int),
        0 < size,
        size + 2 * size_of::<usize>() + 2 * alignment <= isize::MAX,
        size + 2 * size_of::<usize>() + 2 * align_of::<usize>() <= isize::MAX,
    ensures
        promise::aligned_call(alignment, size).wants() is Alloc,
        heap::assured(
            promise::aligned_call(alignment, size),
            heap,
            2,
            |outcome: Outcome, after: Heap|
                outcome matches Outcome::Pointer(p) && if p == 0 {
                    &&& after.refusals == heap.refusals + 1
                    &&& after.blocks == heap.blocks
                    &&& after.data == heap.data
                } else {
                    &&& after.refusals == heap.refusals
                    &&& after.live(p as int)
                    &&& after.user_len(p as int) == size
                    &&& p as int % alignment as int == 0
                },
        ),
{
    laws::servable_requests(size as int, alignment as int);
    assurance::hands_out_assured(heap, size as int, alignment as int, false);
    laws::assurance_weakens(
        promise::aligned_call(alignment, size),
        heap,
        2,
        promise::hands_out(heap, size as int, alignment as int, false),
        |outcome: Outcome, after: Heap|
            outcome matches Outcome::Pointer(p) && if p == 0 {
                &&& after.refusals == heap.refusals + 1
                &&& after.blocks == heap.blocks
                &&& after.data == heap.data
            } else {
                &&& after.refusals == heap.refusals
                &&& after.live(p as int)
                &&& after.user_len(p as int) == size
                &&& p as int % alignment as int == 0
            },
    );
}

/// The same of `posix_memalign`, for every power of two from the pointer size on:
/// `ENOMEM` comes only where the allocator refuses, and otherwise the pointer is
/// stored.
pub proof fn posix_memalign_fails_only_when_refused(
    heap: Heap,
    memptr: usize,
    alignment: usize,
    size: usize,
)
    requires
        heap.wf(),
        promise::holds_pointer(heap, memptr as int),
        is_pow2(alignment as int),
        alignment >= size_of::<usize>(),
        0 < size,
        size + 2 * size_of::<usize>() + 2 * alignment <= isize::MAX,
    ensures
        promise::posix_call(memptr, alignment, size).wants() is Alloc,
        heap::assured(
            promise::posix_call(memptr, alignment, size),
            heap,
            3,
            |outcome: Outcome, after: Heap|
                {
                    let p = after.word(memptr as int);
                    if outcome == Outcome::Code(0) {
                        &&& after.refusals == heap.refusals
                        &&& p != 0
                        &&& after.live(p as int)
                        &&& after.user_len(p as int) == size
                        &&& p as int % alignment as int == 0
                    } else {
                        &&& outcome == Outcome::Code(12)
                        &&& after.refusals == heap.refusals + 1
                        &&& after.blocks == heap.blocks
                        &&& after.data == heap.data
                    }
                },
        ),
{
    layout::lemma_header_shape();
    lemma_posix_alignment(alignment);
    laws::servable_requests(size as int, alignment as int);
    assurance::delivers_assured(heap, memptr, alignment, size);
    laws::assurance_weakens(
        promise::posix_call(memptr, alignment, size),
        heap,
        3,
        promise::delivers(heap, memptr, alignment, size),
        |outcome: Outcome, after: Heap|
            {
                let p = after.word(memptr as int);
                if outcome == Outcome::Code(0) {
                    &&& after.refusals == heap.refusals
                    &&& p != 0
                    &&& after.live(p as int)
                    &&& after.user_len(p as int) == size
                    &&& p as int % alignment as int == 0
                } else {
                    &&& outcome == Outcome::Code(12)
                    &&& after.refusals == heap.refusals + 1
                    &&& after.blocks == heap.blocks
                    &&& after.data == heap.data
                }
            },
    );
}

/// The same of `realloc` of a live allocation: null comes only where the allocator
/// refuses. Otherwise every byte that lies below both sizes is where it was in the
/// allocation, the allocation keeps its alignment, and the old one is gone.
pub proof fn realloc_fails_only_when_refused(heap: Heap, ptr: usize, size: usize)
    requires
        heap.wf(),
        heap.live(ptr as int),
        0 < size,
        size + 2 * size_of::<usize>() + 2 * heap.layout_of(ptr as int).align <= isize::MAX,
    ensures
        heap::assured(
            promise::realloc_call(ptr, size),
            heap,
            6,
            |outcome: Outcome, after: Heap|
                outcome matches Outcome::Pointer(q) && if q == 0 {
                    &&& after.refusals == heap.refusals + 1
                    &&& after.blocks == heap.blocks
                    &&& after.data == heap.data
                } else {
                    &&& after.refusals == heap.refusals
                    &&& after.live(q as int)
                    &&& !after.live(ptr as int)
                    &&& after.user_len(q as int) == size
                    &&& after.layout_of(q as int).align == heap.layout_of(ptr as int).align
                    &&& forall|i: int|
                        0 <= i && i < heap.user_len(ptr as int) && i < size ==> #[trigger] (
                        after.data)(q + i) == (heap.data)(ptr + i)
                },
        ),
{
    let align = heap.layout_of(ptr as int).align as int;
    layout::lemma_header_shape();
    assurance::lemma_live_shape(heap, ptr as int);
    laws::servable_requests(size as int, align);
    assurance::resizes_assured(heap, ptr, size);
    laws::assurance_weakens(
        promise::realloc_call(ptr, size),
        heap,
        6,
        promise::resizes(heap, ptr, size),
        |outcome: Outcome, after: Heap|
            outcome matches Outcome::Pointer(q) && if q == 0 {
                &&& after.refusals == heap.refusals + 1
                &&& after.blocks == heap.blocks
                &&& after.data == heap.data
            } else {
                &&& after.refusals == heap.refusals
                &&& after.live(q as int)
                &&& !after.live(ptr as int)
                &&& after.user_len(q as int) == size
                &&& after.layout_of(q as int).align == heap.layout_of(ptr as int).align
                &&& forall|i: int|
                    0 <= i && i < heap.user_len(ptr as int) && i < size ==> #[trigger] (after.data)(
                        q + i,
                    ) == (heap.data)(ptr + i)
            },
    );
}

/// `free` of a live allocation gives back exactly its block, and leaves every other
/// block there is.
pub proof fn free_gives_back_one_block(heap: Heap, ptr: usize)
    requires
        heap.wf(),
        heap.live(ptr as int),
    ensures
        heap::assured(
            call::freeing(ptr, Outcome::Unit),
            heap,
            2,
            |outcome: Outcome, after: Heap|
                {
                    let block = ptr + heap.user_len(ptr as int) - heap.layout_of(ptr as int).size;
                    &&& outcome == Outcome::Unit
                    &&& heap.blocks.contains_key(block)
                    &&& !after.blocks.contains_key(block)
                    &&& !after.live(ptr as int)
                    &&& forall|b: int|
                        b != block ==> (#[trigger] after.blocks.contains_key(b)
                            <==> heap.blocks.contains_key(b))
                },
        ),
{
    layout::lemma_header_shape();
    assurance::lemma_live_shape(heap, ptr as int);
    assurance::frees_assured(heap, ptr, Outcome::Unit);
    laws::assurance_weakens(
        call::freeing(ptr, Outcome::Unit),
        heap,
        2,
        promise::frees(heap, ptr, Outcome::Unit),
        |outcome: Outcome, after: Heap|
            {
                let block = ptr + heap.user_len(ptr as int) - heap.layout_of(ptr as int).size;
                &&& outcome == Outcome::Unit
                &&& heap.blocks.contains_key(block)
                &&& !after.blocks.contains_key(block)
                &&& !after.live(ptr as int)
                &&& forall|b: int|
                    b != block ==> (#[trigger] after.blocks.contains_key(b)
                        <==> heap.blocks.contains_key(b))
            },
    );
}

/// `calloc` looks only at the product of its arguments, and asks for the block that
/// `malloc` of the product asks for, or for none where `malloc` asks for none.
pub proof fn calloc_asks_as_malloc_does(nmemb: usize, size: usize, total: usize)
    requires
        nmemb * size == total,
    ensures
        promise::calloc_call(nmemb, size) == promise::calloc_call(size, nmemb),
        match (promise::calloc_call(nmemb, size).wants(), promise::malloc_call(total).wants()) {
            (Action::Alloc { layout: c, zero: z }, Action::Alloc { layout: m, zero: y }) => c == m
                && z && !y,
            (Action::Return(c), Action::Return(m)) => c == m && m == Outcome::Pointer(0),
            _ => false,
        },
{
    assert(nmemb * size == size * nmemb) by (nonlinear_arith);
}

/// Where `malloc` asks for a block, it does so for every smaller number of bytes
/// too, and the blocks differ by what the requests differ.
pub proof fn malloc_grows_by_the_byte(size: usize, less: usize)
    requires
        0 < less <= size,
        promise::malloc_call(size).wants() is Alloc,
    ensures
        match (promise::malloc_call(size).wants(), promise::malloc_call(less).wants()) {
            (Action::Alloc { layout: m, zero: y }, Action::Alloc { layout: l, zero: z }) => m.align
                == l.align && y == z && m.size - size == l.size - less,
            _ => false,
        },
{
    let a = layout::block_alignment(layout::natural_alignment());
    let d = layout::data_start(a);
    layout::lemma_header_shape();
    layout::lemma_data_start(a);
    malloc_step_by_step(size, a, d, 1);
    malloc_step_by_step(less, a, d, 1);
}

/// `aligned_alloc` at the default alignment does what `malloc` does.
pub proof fn aligned_alloc_at_the_default_is_malloc(alignment: usize, size: usize)
    requires
        alignment == align_of::<u128>(),
    ensures
        promise::aligned_call(alignment, size) == promise::malloc_call(size),
{
    layout::lemma_header_shape();
}

/// Of an alignment that it takes and some bytes, `posix_memalign` asks for the block
/// that `aligned_alloc` asks for, or both ask for none.
pub proof fn posix_memalign_asks_as_aligned_alloc_does(
    memptr: usize,
    alignment: usize,
    size: usize,
)
    requires
        is_pow2(alignment as int),
        alignment >= size_of::<usize>(),
        size != 0,
    ensures
        match (
            promise::posix_call(memptr, alignment, size).wants(),
            promise::aligned_call(alignment, size).wants(),
        ) {
            (Action::Alloc { layout: p, zero: y }, Action::Alloc { layout: q, zero: z }) => p == q
                && y == z,
            (Action::Return(p), Action::Return(q)) => p == Outcome::Code(12) && q
                == Outcome::Pointer(0),
            _ => false,
        },
{
    lemma_posix_alignment(alignment);
}

} // verus!
