//! A model of memory and of the allocator behind it, and what it means for a
//! call to be carried out against them.
//!
//! Nothing here is executable. The model says what each action needs in order to
//! be sound, what can come of it, and what it does to memory. A statement about
//! a whole C call is then a statement about every way in which the call can go.

use crate::call::Action;
use crate::call::Call;
use crate::call::Outcome;
use crate::call::Reply;
use crate::layout;
use crate::layout::Layout;
use vstd::prelude::*;

verus! {

/// What one address holds.
pub enum Datum {
    /// Nothing that can be relied on.
    Uninit,
    /// A byte.
    Byte(u8),
    /// The byte number `index` of the machine word `value`.
    Part { value: usize, index: int },
}

/// What the addresses of a fresh block hold.
pub open spec fn fill(zero: bool) -> Datum {
    if zero {
        Datum::Byte(0)
    } else {
        Datum::Uninit
    }
}

/// Memory, and the blocks of it that the allocator has given out.
#[verifier::ext_equal]
pub struct Heap {
    /// The blocks given out and not yet given back, by their first address.
    pub blocks: Map<int, Layout>,
    /// What each address holds.
    pub data: spec_fn(int) -> Datum,
    /// Addresses outside the blocks that belong to the C program, such as its
    /// stack.
    pub program: Set<int>,
    /// How often the allocator has refused a block.
    pub refusals: nat,
}

/// Whether two ranges of addresses have none in common.
pub open spec fn apart(a: int, a_len: int, b: int, b_len: int) -> bool {
    a + a_len <= b || b + b_len <= a
}

impl Heap {
    /// The block at `at` of the given layout is aligned, not empty and inside
    /// the address space, and its first address is not null.
    pub open spec fn sound_block(at: int, layout: Layout) -> bool {
        &&& layout::fits(layout.size as int, layout.align as int)
        &&& 0 < layout.size
        &&& 0 < at
        &&& at + layout.size <= usize::MAX + 1
        &&& at % (layout.align as int) == 0
    }

    /// All blocks are sound, no two overlap, and none takes memory of the
    /// program's own.
    pub open spec fn wf(self) -> bool {
        &&& forall|b: int| #[trigger] self.blocks.contains_key(b) ==> Self::sound_block(b, self.blocks[b])
        &&& forall|b: int, c: int| #![trigger self.blocks.contains_key(b), self.blocks.contains_key(c)]
            self.blocks.contains_key(b) && self.blocks.contains_key(c) && b != c ==> apart(
                b,
                self.blocks[b].size as int,
                c,
                self.blocks[c].size as int,
            )
        &&& forall|b: int, a: int| #![trigger self.blocks.contains_key(b), self.program.contains(a)]
            self.blocks.contains_key(b) && self.program.contains(a) ==> apart(
                b,
                self.blocks[b].size as int,
                a,
                1,
            )
    }

    /// Whether the allocator may give out the block at `at`: it is sound and
    /// overlaps neither another block nor the program's memory.
    pub open spec fn vacant(self, at: int, layout: Layout) -> bool {
        &&& Self::sound_block(at, layout)
        &&& forall|b: int| #[trigger] self.blocks.contains_key(b) ==> apart(
            at,
            layout.size as int,
            b,
            self.blocks[b].size as int,
        )
        &&& forall|a: int| #[trigger] self.program.contains(a) ==> apart(
            at,
            layout.size as int,
            a,
            1,
        )
    }

    /// Whether some block covers the `len` addresses from `at`.
    pub open spec fn in_block(self, at: int, len: int) -> bool {
        exists|b: int| #[trigger] self.blocks.contains_key(b) && b <= at && at + len <= b
            + self.blocks[b].size
    }

    /// Whether the machine word `value` lies at `at`.
    pub open spec fn word_at(self, at: int, value: usize) -> bool {
        forall|a: int| at <= a < at + layout::word_len() ==> #[trigger] (self.data)(a)
            == (Datum::Part { value, index: a - at })
    }

    /// The machine word at `at`, where one lies there.
    pub open spec fn word(self, at: int) -> usize {
        (self.data)(at)->value
    }

    /// Whether `header` lies at `at`: its size, then its alignment.
    pub open spec fn header_at(self, at: int, header: Layout) -> bool {
        self.word_at(at, header.size) && self.word_at(at + layout::word_len(), header.align)
    }

    /// The layout that the header in front of the user address `p` gives.
    pub open spec fn layout_of(self, p: int) -> Layout {
        let at = p - layout::header_span();
        Layout { size: self.word(at), align: self.word(at + layout::word_len()) }
    }

    /// The first address of the block with user address `p`.
    pub open spec fn block_of(self, p: int) -> int {
        p - layout::data_start(self.layout_of(p).align as int)
    }

    /// Whether `p` is the user address of an allocation: the header in front of
    /// it is intact and describes the block that `p` lies in.
    pub open spec fn live(self, p: int) -> bool {
        &&& self.header_at(p - layout::header_span(), self.layout_of(p))
        &&& self.layout_of(p).carries_data()
        &&& self.blocks.contains_key(self.block_of(p))
        &&& self.blocks[self.block_of(p)] == self.layout_of(p)
    }

    /// How many bytes belong to the user at the user address `p`.
    pub open spec fn user_len(self, p: int) -> int {
        self.layout_of(p).user_len()
    }

    /// Whether the C program may write to `a`: it is the program's own, or user
    /// data of an allocation.
    pub open spec fn writable(self, a: int) -> bool {
        self.program.contains(a) || exists|p: int| #[trigger] self.live(p) && p <= a < p
            + self.user_len(p)
    }

    /// Memory with `len` addresses from `at` holding what `datum` gives.
    pub open spec fn with(self, at: int, len: int, datum: spec_fn(int) -> Datum) -> Heap {
        Heap {
            data: |a: int|
                if at <= a < at + len {
                    datum(a)
                } else {
                    (self.data)(a)
                },
            ..self
        }
    }

    /// Memory with the machine word `value` at `at`.
    pub open spec fn with_word(self, at: int, value: usize) -> Heap {
        self.with(
            at,
            layout::word_len(),
            |a: int| Datum::Part { value, index: a - at },
        )
    }

    /// Memory with `header` at `at`.
    pub open spec fn with_header(self, at: int, header: Layout) -> Heap {
        self.with_word(at, header.size).with_word(at + layout::word_len(), header.align)
    }

    /// Memory with a further block, whose addresses hold `fill`.
    pub open spec fn with_block(self, at: int, layout: Layout, fill: Datum) -> Heap {
        let filled = self.with(at, layout.size as int, |a: int| fill);
        Heap { blocks: self.blocks.insert(at, layout), ..filled }
    }

    /// Memory without the block at `at`.
    pub open spec fn without_block(self, at: int, layout: Layout) -> Heap {
        let cleared = self.with(at, layout.size as int, |a: int| Datum::Uninit);
        Heap { blocks: self.blocks.remove(at), ..cleared }
    }

    /// Memory after the allocator has refused a block.
    pub open spec fn refused(self) -> Heap {
        Heap { refusals: self.refusals + 1, ..self }
    }

    /// Whether `action` is sound here: it reaches only memory that is there, with
    /// the right alignment, and gives back only what was given out.
    pub open spec fn permits(self, action: Action) -> bool {
        match action {
            Action::Alloc { layout, zero: _ } => 0 < layout.size && layout::fits(
                layout.size as int,
                layout.align as int,
            ),
            Action::Dealloc { at, layout } => self.blocks.contains_key(at as int)
                && self.blocks[at as int] == layout,
            Action::WriteHeader { at, header: _ } => at as int % layout::header_alignment() == 0
                && self.in_block(at as int, layout::header_span()),
            Action::ReadHeader { at } => at as int % layout::header_alignment() == 0
                && self.in_block(at as int, layout::header_span()) && self.header_at(
                at as int,
                self.layout_of(at + layout::header_span()),
            ),
            Action::Copy { from, to, len } => self.in_block(from as int, len as int)
                && self.in_block(to as int, len as int) && apart(
                from as int,
                len as int,
                to as int,
                len as int,
            ),
            Action::Store { at, value: _ } => at as int % layout::header_alignment() == 0
                && forall|a: int|
                at <= a < at + layout::word_len() ==> #[trigger] self.writable(a),
            Action::Return(_) => true,
        }
    }

    /// Whether `reply` can come of `action`. The allocator is free to refuse any
    /// block, and to choose any vacant place for one.
    pub open spec fn allows(self, action: Action, reply: Reply) -> bool {
        match (action, reply) {
            (Action::Alloc { layout, .. }, Reply::Address(raw)) => raw == 0 || self.vacant(
                raw as int,
                layout,
            ),
            (Action::ReadHeader { at }, Reply::Header(header)) => self.header_at(at as int, header),
            (Action::Dealloc { .. }, Reply::Done) => true,
            (Action::WriteHeader { .. }, Reply::Done) => true,
            (Action::Copy { .. }, Reply::Done) => true,
            (Action::Store { .. }, Reply::Done) => true,
            _ => false,
        }
    }

    /// Memory after `action` has been answered by `reply`.
    pub open spec fn after(self, action: Action, reply: Reply) -> Heap {
        match (action, reply) {
            (Action::Alloc { layout, zero }, Reply::Address(raw)) => if raw == 0 {
                self.refused()
            } else {
                self.with_block(raw as int, layout, fill(zero))
            },
            (Action::Dealloc { at, layout }, _) => self.without_block(at as int, layout),
            (Action::WriteHeader { at, header }, _) => self.with_header(at as int, header),
            (Action::Copy { from, to, len }, _) => self.with(
                to as int,
                len as int,
                |a: int| (self.data)(a - to + from),
            ),
            (Action::Store { at, value }, _) => self.with_word(at as int, value),
            _ => self,
        }
    }
}

/// Whether `call`, begun with memory `heap`, goes well in every possible way:
/// each action is sound where it happens, each reply is one that the call can be
/// resumed with, it returns after at most `steps` replies, and what it returns
/// and the memory it leaves satisfy `post`.
pub open spec fn assured(
    call: Call,
    heap: Heap,
    steps: nat,
    post: spec_fn(Outcome, Heap) -> bool,
) -> bool
    decreases steps,
{
    &&& call.wf()
    &&& heap.permits(call.wants())
    &&& match call {
        Call::Returning(outcome) => post(outcome, heap),
        _ => steps > 0 && forall|reply: Reply| #[trigger]
            heap.allows(call.wants(), reply) ==> call.expects(reply) && assured(
                call.after(reply),
                heap.after(call.wants(), reply),
                (steps - 1) as nat,
                post,
            ),
    }
}

} // verus!
