//! A C call in progress: what it asks of memory next, and how it goes on once
//! the answer is known.
//!
//! A call touches memory only through the [`Action`]s that it names. Its driver
//! performs each of them and hands the [`Reply`] back, until the call returns.

use crate::layout;
use crate::layout::Layout;
use vstd::prelude::*;

verus! {

/// `errno` value for an argument that the call does not take.
pub const EINVAL: i32 = 22;

/// `errno` value for a request that found no memory.
pub const ENOMEM: i32 = 12;

/// What a C call returns.
#[derive(Clone, Copy, Debug, PartialEq, Eq, Structural)]
pub enum Outcome {
    /// An address; zero is the null pointer.
    Pointer(usize),
    /// A status code; zero is success.
    Code(i32),
    /// Nothing.
    Unit,
}

/// One access to the allocator or to memory.
#[derive(Clone, Copy, Debug, PartialEq, Eq, Structural)]
pub enum Action {
    /// Ask the allocator for a block; with `zero`, one filled with zero bytes.
    Alloc { layout: Layout, zero: bool },
    /// Give the block at `at` back to the allocator.
    Dealloc { at: usize, layout: Layout },
    /// Write a header at `at`: the size in the first word, the alignment in the
    /// second.
    WriteHeader { at: usize, header: Layout },
    /// Read the header at `at`.
    ReadHeader { at: usize },
    /// Copy `len` bytes between two ranges that do not overlap.
    Copy { from: usize, to: usize, len: usize },
    /// Write the pointer `value` at `at`.
    Store { at: usize, value: usize },
    /// Return to the C caller.
    Return(Outcome),
}

/// What came of an action.
#[derive(Clone, Copy, Debug, PartialEq, Eq, Structural)]
pub enum Reply {
    /// The address of the block that the allocator gave; zero if it gave none.
    Address(usize),
    /// The header that was read.
    Header(Layout),
    /// The action was carried out.
    Done,
}

/// What is to become of a block that is being allocated.
#[derive(Clone, Copy, Debug, PartialEq, Eq, Structural)]
pub enum Goal {
    /// Its user address is returned.
    Hand,
    /// Its user address is stored at `at`, and a status code returned.
    Deliver { at: usize },
    /// It takes over the first `len` bytes from the user address `from`, whose
    /// block is then freed.
    Replace { from: usize, len: usize },
}

/// A C call in progress.
#[derive(Clone, Copy, Debug, PartialEq, Eq, Structural)]
pub enum Call {
    /// A block is being asked for.
    Requesting { layout: Layout, zero: bool, goal: Goal },
    /// The header in front of `user` is being written.
    Tagging { user: usize, header: Layout, goal: Goal },
    /// The pointer `value` is being stored for the caller.
    Delivering { at: usize, value: usize },
    /// User data is moving to a new block.
    Copying { from: usize, to: usize, len: usize },
    /// The header in front of `user` is being read to resize its block.
    Measuring { user: usize, size: usize },
    /// The header in front of `user` is being read to free its block.
    Recovering { user: usize, outcome: Outcome },
    /// A block is being given back.
    Releasing { at: usize, layout: Layout, outcome: Outcome },
    /// Nothing is left to do.
    Returning(Outcome),
}

impl Goal {
    /// A user address whose block this goal frees has a header in front of it.
    pub open spec fn wf(self) -> bool {
        self matches Goal::Replace { from, .. } ==> layout::header_span() <= from
    }

    /// How the call goes on without a block.
    pub open spec fn missed(self) -> Call {
        match self {
            Goal::Hand => Call::Returning(Outcome::Pointer(0)),
            Goal::Deliver { .. } => Call::Returning(Outcome::Code(ENOMEM)),
            Goal::Replace { .. } => Call::Returning(Outcome::Pointer(0)),
        }
    }

    /// How the call goes on once the block with user address `user` is ready.
    pub open spec fn met(self, user: usize) -> Call {
        match self {
            Goal::Hand => Call::Returning(Outcome::Pointer(user)),
            Goal::Deliver { at } => Call::Delivering { at, value: user },
            Goal::Replace { from, len } => Call::Copying { from, to: user, len },
        }
    }
}

/// A call that is about to allocate `size` bytes at `alignment`: it asks for a
/// block where the request is servable, and is done otherwise.
pub open spec fn allocating(size: int, alignment: int, zero: bool, goal: Goal) -> Call {
    if layout::servable(size, alignment) {
        Call::Requesting { layout: layout::block_layout(size, alignment), zero, goal }
    } else {
        goal.missed()
    }
}

/// A call that frees the block with user address `ptr` and then returns
/// `outcome`.
pub open spec fn freeing(ptr: usize, outcome: Outcome) -> Call {
    if ptr == 0 {
        Call::Returning(outcome)
    } else {
        Call::Recovering { user: ptr, outcome }
    }
}

impl Call {
    /// Every user address of the call has room for a header in front of it, and
    /// every block it asks for has room for header and data.
    pub open spec fn wf(self) -> bool {
        match self {
            Call::Requesting { layout, zero: _, goal } => layout.carries_data() && goal.wf(),
            Call::Tagging { user, header: _, goal } => layout::header_span() <= user && goal.wf(),
            Call::Delivering { .. } => true,
            Call::Copying { from, .. } => layout::header_span() <= from,
            Call::Measuring { user, .. } => layout::header_span() <= user,
            Call::Recovering { user, .. } => layout::header_span() <= user,
            Call::Releasing { .. } => true,
            Call::Returning(_) => true,
        }
    }

    /// What the call asks for next.
    pub open spec fn wants(self) -> Action {
        match self {
            Call::Requesting { layout, zero, goal: _ } => Action::Alloc { layout, zero },
            Call::Tagging { user, header, goal: _ } => Action::WriteHeader {
                at: (user - layout::header_span()) as usize,
                header,
            },
            Call::Delivering { at, value } => Action::Store { at, value },
            Call::Copying { from, to, len } => Action::Copy { from, to, len },
            Call::Measuring { user, size: _ } => Action::ReadHeader {
                at: (user - layout::header_span()) as usize,
            },
            Call::Recovering { user, outcome: _ } => Action::ReadHeader {
                at: (user - layout::header_span()) as usize,
            },
            Call::Releasing { at, layout, outcome: _ } => Action::Dealloc { at, layout },
            Call::Returning(outcome) => Action::Return(outcome),
        }
    }

    /// Whether `reply` can answer the action that the call wants: it is of the
    /// right kind, a block does not reach past the end of the address space, and
    /// a header describes a block that starts in front of the user address.
    pub open spec fn expects(self, reply: Reply) -> bool {
        match (self, reply) {
            (Call::Requesting { layout, .. }, Reply::Address(raw)) => raw == 0 || raw + layout.size
                <= usize::MAX + 1,
            (Call::Tagging { .. }, Reply::Done) => true,
            (Call::Delivering { .. }, Reply::Done) => true,
            (Call::Copying { .. }, Reply::Done) => true,
            (Call::Measuring { .. }, Reply::Header(header)) => header.align != 0
                && layout::data_start(header.align as int) <= header.size,
            (Call::Recovering { user, .. }, Reply::Header(header)) => header.align != 0
                && layout::data_start(header.align as int) <= user,
            (Call::Releasing { .. }, Reply::Done) => true,
            _ => false,
        }
    }

    /// How the call goes on after `reply`.
    pub open spec fn after(self, reply: Reply) -> Call
        recommends
            self.expects(reply),
    {
        match (self, reply) {
            (Call::Requesting { layout, zero: _, goal }, Reply::Address(raw)) => if raw == 0 {
                goal.missed()
            } else {
                Call::Tagging {
                    user: (raw + layout::data_start(layout.align as int)) as usize,
                    header: layout,
                    goal,
                }
            },
            (Call::Tagging { user, header: _, goal }, Reply::Done) => goal.met(user),
            (Call::Delivering { .. }, Reply::Done) => Call::Returning(Outcome::Code(0)),
            (Call::Copying { from, to, len: _ }, Reply::Done) => freeing(
                from,
                Outcome::Pointer(to),
            ),
            (Call::Measuring { user, size }, Reply::Header(header)) => allocating(
                size as int,
                header.align as int,
                false,
                Goal::Replace {
                    from: user,
                    len: layout::smaller(header.user_len(), size as int) as usize,
                },
            ),
            (Call::Recovering { user, outcome }, Reply::Header(header)) => Call::Releasing {
                at: (user - layout::data_start(header.align as int)) as usize,
                layout: header,
                outcome,
            },
            (Call::Releasing { at: _, layout: _, outcome }, Reply::Done) => Call::Returning(
                outcome,
            ),
            _ => self,
        }
    }

    /// The next action: what a driver has to perform before it resumes the call.
    pub fn action(&self) -> (action: Action)
        requires
            self.wf(),
        ensures
            action == self.wants(),
    {
        match *self {
            Call::Requesting { layout, zero, goal: _ } => Action::Alloc { layout, zero },
            Call::Tagging { user, header, goal: _ } => Action::WriteHeader {
                at: user - layout::header_len(),
                header,
            },
            Call::Delivering { at, value } => Action::Store { at, value },
            Call::Copying { from, to, len } => Action::Copy { from, to, len },
            Call::Measuring { user, size: _ } => read_header(user),
            Call::Recovering { user, outcome: _ } => read_header(user),
            Call::Releasing { at, layout, outcome: _ } => Action::Dealloc { at, layout },
            Call::Returning(outcome) => Action::Return(outcome),
        }
    }

    /// Whether the call can be resumed with `reply`.
    pub fn accepts(&self, reply: Reply) -> (ok: bool)
        ensures
            ok == self.expects(reply),
    {
        match (*self, reply) {
            (Call::Requesting { layout, zero: _, goal: _ }, Reply::Address(raw)) => raw == 0
                || raw - 1 <= usize::MAX - layout.size,
            (Call::Tagging { .. }, Reply::Done) => true,
            (Call::Delivering { .. }, Reply::Done) => true,
            (Call::Copying { .. }, Reply::Done) => true,
            (Call::Measuring { user: _, size: _ }, Reply::Header(header)) => header.align != 0
                && layout::data_offset(header.align) <= header.size,
            (Call::Recovering { user, outcome: _ }, Reply::Header(header)) => header.align != 0
                && layout::data_offset(header.align) <= user,
            (Call::Releasing { .. }, Reply::Done) => true,
            _ => false,
        }
    }

    /// Goes on with the call after its action was answered by `reply`.
    pub fn resume(self, reply: Reply) -> (next: Call)
        requires
            self.wf(),
            self.expects(reply),
        ensures
            next == self.after(reply),
            next.wf(),
    {
        match (self, reply) {
            (Call::Requesting { layout, zero: _, goal }, Reply::Address(raw)) => place(
                layout,
                goal,
                raw,
            ),
            (Call::Tagging { user, header: _, goal }, Reply::Done) => match goal {
                Goal::Hand => Call::Returning(Outcome::Pointer(user)),
                Goal::Deliver { at } => Call::Delivering { at, value: user },
                Goal::Replace { from, len } => Call::Copying { from, to: user, len },
            },
            (Call::Delivering { .. }, Reply::Done) => Call::Returning(Outcome::Code(0)),
            (Call::Copying { from, to, len: _ }, Reply::Done) => release(
                from,
                Outcome::Pointer(to),
            ),
            (Call::Measuring { user, size }, Reply::Header(header)) => {
                let old_len: usize = header.size - layout::data_offset(header.align);
                let len: usize = if old_len <= size {
                    old_len
                } else {
                    size
                };
                alloc_helper(size, header.align, false, Goal::Replace { from: user, len })
            },
            (Call::Recovering { user, outcome }, Reply::Header(header)) => Call::Releasing {
                at: user - layout::data_offset(header.align),
                layout: header,
                outcome,
            },
            (Call::Releasing { at: _, layout: _, outcome }, Reply::Done) => Call::Returning(
                outcome,
            ),
            _ => self,
        }
    }
}

/// The action that reads the header in front of the user address `ptr`.
fn read_header(ptr: usize) -> (action: Action)
    requires
        layout::header_span() <= ptr,
    ensures
        action == (Action::ReadHeader { at: (ptr - layout::header_span()) as usize }),
{
    Action::ReadHeader { at: ptr - layout::header_len() }
}

/// Goes on without a block.
fn miss(goal: Goal) -> (call: Call)
    ensures
        call == goal.missed(),
        call.wf(),
{
    match goal {
        Goal::Deliver { .. } => Call::Returning(Outcome::Code(ENOMEM)),
        _ => Call::Returning(Outcome::Pointer(0)),
    }
}

/// Puts the header and the user data into the block of the given layout at
/// `raw`, or goes on without a block if `raw` is null.
fn place(layout: Layout, goal: Goal, raw: usize) -> (call: Call)
    requires
        layout.carries_data(),
        goal.wf(),
        raw == 0 || raw + layout.size <= usize::MAX + 1,
    ensures
        raw == 0 ==> call == goal.missed(),
        raw != 0 ==> call == (Call::Tagging {
            user: (raw + layout::data_start(layout.align as int)) as usize,
            header: layout,
            goal,
        }),
        call.wf(),
{
    if raw == 0 {
        return miss(goal);
    }
    proof {
        layout::lemma_header_shape();
        layout::lemma_data_start(layout.align as int);
    }
    let user: usize = raw + layout::data_offset(layout.align);
    Call::Tagging { user, header: layout, goal }
}

/// Starts to allocate `size` bytes of user data at a multiple of `alignment`.
///
/// There is no block for a `size` of zero, nor where header and data together
/// exceed what a block can hold.
pub(crate) fn alloc_helper(size: usize, alignment: usize, zero: bool, goal: Goal) -> (call: Call)
    requires
        goal.wf(),
    ensures
        call == allocating(size as int, alignment as int, zero, goal),
        call.wf(),
{
    if size == 0 {
        return miss(goal);
    }
    let least: usize = layout::header_align();
    let actual_align: usize = if alignment >= least {
        alignment
    } else {
        least
    };
    proof {
        layout::lemma_header_shape();
        layout::lemma_data_start(actual_align as int);
        layout::lemma_round_up(
            layout::block_size(size as int, alignment as int),
            actual_align as int,
        );
    }
    let data_offset: usize = layout::data_offset(actual_align);
    let total_size: usize = match data_offset.checked_add(size) {
        Some(n) => n,
        None => {
            return miss(goal);
        },
    };
    if !layout::layout_accepted(total_size, actual_align) {
        return miss(goal);
    }
    proof {
        layout::lemma_servable(size as int, alignment as int);
    }
    Call::Requesting { layout: Layout { size: total_size, align: actual_align }, zero, goal }
}

/// Starts to free the block with user address `ptr`, if that is not null, and to
/// return `outcome`.
pub(crate) fn release(ptr: usize, outcome: Outcome) -> (call: Call)
    requires
        ptr == 0 || layout::header_span() <= ptr,
    ensures
        call == freeing(ptr, outcome),
        call.wf(),
{
    if ptr == 0 {
        return Call::Returning(outcome);
    }
    Call::Recovering { user: ptr, outcome }
}

} // verus!
