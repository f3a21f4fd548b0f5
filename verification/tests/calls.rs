//! The C functions, driven against a small simulated memory.

use std::collections::BTreeMap;

use picolibc::call::{Action, Call, Outcome, Reply, EINVAL, ENOMEM};
use picolibc::layout::{
    data_offset, default_align, header_align, header_len, pointer_len, Layout,
};
use picolibc::malloc::{aligned_alloc, calloc, free, malloc, memalign, posix_memalign, realloc};

/// Memory as bytes, and the blocks given out. Blocks are placed one after the
/// other, each at the next multiple of its alignment, behind some dirty bytes.
struct Memory {
    blocks: BTreeMap<usize, Layout>,
    bytes: BTreeMap<usize, u8>,
    next: usize,
    refuse: bool,
    actions: Vec<Action>,
}

impl Memory {
    fn new() -> Memory {
        Memory {
            blocks: BTreeMap::new(),
            bytes: BTreeMap::new(),
            next: 0x1001,
            refuse: false,
            actions: Vec::new(),
        }
    }

    fn covered(&self, at: usize, len: usize) -> bool {
        self.blocks
            .iter()
            .any(|(b, l)| *b <= at && at + len <= b + l.size)
    }

    fn put_word(&mut self, at: usize, value: usize) {
        for (i, byte) in value.to_le_bytes().iter().enumerate() {
            self.bytes.insert(at + i, *byte);
        }
    }

    fn word(&self, at: usize) -> usize {
        let mut bytes = 0usize.to_le_bytes();
        for i in 0..bytes.len() {
            bytes[i] = self.bytes[&(at + i)];
        }
        usize::from_le_bytes(bytes)
    }

    fn fill(&mut self, at: usize, len: usize, seed: usize) {
        for i in 0..len {
            self.bytes.insert(at + i, ((seed + i * 7) % 251) as u8);
        }
    }

    fn holds(&self, at: usize, len: usize, seed: usize) -> bool {
        (0..len).all(|i| self.bytes[&(at + i)] == ((seed + i * 7) % 251) as u8)
    }

    fn perform(&mut self, action: Action) -> Reply {
        match action {
            Action::Alloc { layout, zero } => {
                assert!(core::alloc::Layout::from_size_align(layout.size, layout.align).is_ok());
                assert!(layout.size > 0);
                if self.refuse {
                    return Reply::Address(0);
                }
                let at = self.next.next_multiple_of(layout.align);
                self.next = at + layout.size + 1;
                self.blocks.insert(at, layout);
                for i in 0..layout.size {
                    self.bytes.insert(at + i, if zero { 0 } else { 0xAA });
                }
                Reply::Address(at)
            }
            Action::Dealloc { at, layout } => {
                assert_eq!(self.blocks.remove(&at), Some(layout));
                for i in 0..layout.size {
                    self.bytes.remove(&(at + i));
                }
                Reply::Done
            }
            Action::WriteHeader { at, header } => {
                assert_eq!(at % header_align(), 0);
                assert!(self.covered(at, header_len()));
                self.put_word(at, header.size);
                self.put_word(at + pointer_len(), header.align);
                Reply::Done
            }
            Action::ReadHeader { at } => {
                assert!(self.covered(at, header_len()));
                Reply::Header(Layout {
                    size: self.word(at),
                    align: self.word(at + pointer_len()),
                })
            }
            Action::Copy { from, to, len } => {
                assert!(self.covered(from, len));
                assert!(self.covered(to, len));
                assert!(from + len <= to || to + len <= from);
                for i in 0..len {
                    let byte = self.bytes[&(from + i)];
                    self.bytes.insert(to + i, byte);
                }
                Reply::Done
            }
            Action::Store { at, value } => {
                self.put_word(at, value);
                Reply::Done
            }
            Action::Return(_) => panic!("nothing to perform"),
        }
    }

    fn run(&mut self, first: Call) -> Outcome {
        let mut call = first;
        self.actions.clear();
        loop {
            let action = call.action();
            if let Action::Return(outcome) = action {
                return outcome;
            }
            self.actions.push(action);
            let reply = self.perform(action);
            assert!(call.accepts(reply));
            call = call.resume(reply);
        }
    }

    fn pointer(&mut self, call: Call) -> usize {
        match self.run(call) {
            Outcome::Pointer(p) => p,
            other => panic!("{:?} is no pointer", other),
        }
    }
}

const NULL: Outcome = Outcome::Pointer(0);

fn at_once(call: Call) -> Outcome {
    match call.action() {
        Action::Return(outcome) => outcome,
        other => panic!("{:?} instead of a return", other),
    }
}

fn asks_for(call: Call) -> (usize, usize, bool) {
    match call.action() {
        Action::Alloc { layout, zero } => (layout.size, layout.align, zero),
        other => panic!("{:?} instead of a request", other),
    }
}

#[test]
fn a_header_is_as_large_as_a_layout() {
    assert_eq!(header_len(), std::mem::size_of::<core::alloc::Layout>());
    assert_eq!(header_align(), std::mem::align_of::<core::alloc::Layout>());
    assert_eq!(default_align(), std::mem::align_of::<u128>());
    assert_eq!(pointer_len(), std::mem::size_of::<&u8>());
}

#[test]
fn data_starts_at_the_next_multiple_of_the_alignment() {
    let h = header_len();
    assert_eq!(data_offset(1), h);
    assert_eq!(data_offset(h), h);
    assert_eq!(data_offset(2 * h), 2 * h);
    assert_eq!(data_offset(4096), 4096);
    assert_eq!(data_offset(h - 1), 2 * (h - 1));
    assert_eq!(data_offset(h + 1), h + 1);
    assert_eq!(data_offset(usize::MAX), usize::MAX);
}

#[test]
fn malloc_asks_for_header_and_data() {
    let a = default_align();
    let offset = header_len().next_multiple_of(a);
    assert_eq!(asks_for(malloc(100)), (offset + 100, a, false));
    assert_eq!(asks_for(malloc(1)), (offset + 1, a, false));
}

#[test]
fn malloc_places_the_data_behind_its_header() {
    let mut m = Memory::new();
    let p = m.pointer(malloc(100));
    let a = default_align();
    assert_eq!(p % a, 0);
    let block = p - data_offset(a);
    let layout = Layout { size: data_offset(a) + 100, align: a };
    assert_eq!(m.blocks[&block], layout);
    assert_eq!(m.word(p - header_len()), layout.size);
    assert_eq!(m.word(p - header_len() + pointer_len()), layout.align);
    assert_eq!(m.actions.len(), 2);
}

#[test]
fn malloc_of_nothing_is_null() {
    assert_eq!(at_once(malloc(0)), NULL);
}

#[test]
fn malloc_of_too_much_is_null() {
    assert_eq!(at_once(malloc(usize::MAX)), NULL);
    assert_eq!(at_once(malloc(usize::MAX - header_len() + 1)), NULL);
    assert_eq!(at_once(malloc(isize::MAX as usize)), NULL);
}

#[test]
fn malloc_of_the_most_that_fits() {
    let a = default_align();
    let top = isize::MAX as usize - isize::MAX as usize % a;
    let most = top - data_offset(a);
    assert_eq!(asks_for(malloc(most)), (top, a, false));
    assert_eq!(at_once(malloc(most + 1)), NULL);
}

#[test]
fn malloc_of_a_refused_block_is_null() {
    let mut m = Memory::new();
    m.refuse = true;
    assert_eq!(m.run(malloc(8)), NULL);
    assert_eq!(m.actions.len(), 1);
    assert!(m.blocks.is_empty());
}

#[test]
fn calloc_gives_zero_bytes() {
    let mut m = Memory::new();
    let p = m.pointer(calloc(6, 7));
    assert_eq!(p % default_align(), 0);
    assert!((0..42).all(|i| m.bytes[&(p + i)] == 0));
    assert_eq!(
        m.actions[0],
        Action::Alloc {
            layout: Layout { size: data_offset(default_align()) + 42, align: default_align() },
            zero: true,
        }
    );
}

#[test]
fn calloc_overflow_is_null() {
    assert_eq!(at_once(calloc(usize::MAX, 2)), NULL);
    assert_eq!(at_once(calloc(usize::MAX / 2 + 1, 2)), NULL);
    assert_eq!(at_once(calloc(1 << (usize::BITS / 2), 1 << (usize::BITS / 2))), NULL);
}

#[test]
fn calloc_of_nothing_is_null() {
    assert_eq!(at_once(calloc(0, 8)), NULL);
    assert_eq!(at_once(calloc(8, 0)), NULL);
}

#[test]
fn aligned_alloc_takes_powers_of_two_only() {
    assert_eq!(at_once(aligned_alloc(0, 8)), NULL);
    assert_eq!(at_once(aligned_alloc(3, 8)), NULL);
    assert_eq!(at_once(aligned_alloc(24, 8)), NULL);
    assert_eq!(at_once(aligned_alloc(usize::MAX, 8)), NULL);
    assert_eq!(asks_for(aligned_alloc(64, 8)), (64 + 8, 64, false));
    assert_eq!(asks_for(aligned_alloc(4096, 1)), (4097, 4096, false));
}

#[test]
fn small_alignments_are_raised_to_that_of_the_header() {
    let h = header_align();
    assert_eq!(asks_for(aligned_alloc(1, 5)), (data_offset(h) + 5, h, false));
    assert_eq!(asks_for(aligned_alloc(2, 5)), (data_offset(h) + 5, h, false));
}

#[test]
fn the_largest_alignment_is_never_servable() {
    let half = 1usize << (usize::BITS - 1);
    assert_eq!(at_once(aligned_alloc(half, 1)), NULL);
    let quarter = half >> 1;
    assert_eq!(at_once(aligned_alloc(quarter, 1)), NULL);
    assert_eq!(asks_for(aligned_alloc(quarter >> 1, 1)), (quarter / 2 + 1, quarter / 2, false));
}

#[test]
fn aligned_alloc_aligns_the_user_address() {
    for shift in 0..13 {
        let mut m = Memory::new();
        let alignment = 1usize << shift;
        let p = m.pointer(aligned_alloc(alignment, 10));
        assert!(p != 0);
        assert_eq!(p % alignment, 0);
        assert_eq!((p - header_len()) % header_align(), 0);
    }
}

#[test]
fn memalign_is_aligned_alloc() {
    for alignment in [0, 1, 3, 8, 64, 100, 1 << 20, usize::MAX] {
        for size in [0, 1, 40, isize::MAX as usize] {
            assert_eq!(memalign(alignment, size), aligned_alloc(alignment, size));
        }
    }
}

#[test]
fn posix_memalign_rejects_bad_alignments() {
    let w = pointer_len();
    for alignment in [0, 1, 2, w / 2, w + 1, 3 * w, usize::MAX] {
        assert_eq!(at_once(posix_memalign(0x100, alignment, 8)), Outcome::Code(EINVAL));
        assert_eq!(at_once(posix_memalign(0x100, alignment, 0)), Outcome::Code(EINVAL));
    }
    assert_eq!(EINVAL, 22);
}

#[test]
fn posix_memalign_delivers_a_pointer() {
    let mut m = Memory::new();
    assert_eq!(m.run(posix_memalign(0x100, 256, 33)), Outcome::Code(0));
    let p = m.word(0x100);
    assert_eq!(p % 256, 0);
    assert_eq!(m.blocks[&(p - 256)], Layout { size: 256 + 33, align: 256 });
    assert_eq!(m.actions.len(), 3);
    assert_eq!(m.actions[2], Action::Store { at: 0x100, value: p });
    assert_eq!(m.run(free(p)), Outcome::Unit);
    assert!(m.blocks.is_empty());
}

#[test]
fn posix_memalign_takes_the_pointer_size() {
    let w = pointer_len();
    assert_eq!(asks_for(posix_memalign(0x100, w, 1)).1, w.max(header_align()));
}

#[test]
fn posix_memalign_of_nothing_delivers_null() {
    let mut m = Memory::new();
    m.put_word(0x100, 77);
    assert_eq!(m.run(posix_memalign(0x100, 64, 0)), Outcome::Code(0));
    assert_eq!(m.word(0x100), 0);
    assert!(m.blocks.is_empty());
}

#[test]
fn posix_memalign_without_memory_leaves_the_pointer() {
    let mut m = Memory::new();
    m.put_word(0x100, 77);
    m.refuse = true;
    assert_eq!(m.run(posix_memalign(0x100, 64, 5)), Outcome::Code(ENOMEM));
    assert_eq!(m.run(posix_memalign(0x100, 64, usize::MAX)), Outcome::Code(ENOMEM));
    assert_eq!(m.word(0x100), 77);
    assert_eq!(ENOMEM, 12);
}

#[test]
fn free_of_null_returns_at_once() {
    assert_eq!(at_once(free(0)), Outcome::Unit);
}

#[test]
fn free_gives_back_what_was_given() {
    let mut m = Memory::new();
    let kept = m.pointer(malloc(9));
    m.fill(kept, 9, 3);
    let before = m.blocks.clone();
    for call in [malloc(100), calloc(3, 5), aligned_alloc(128, 1), memalign(1, 1)] {
        let p = m.pointer(call);
        assert_eq!(m.blocks.len(), 2);
        let layout = m.blocks[&(p - data_offset(m.word(p - header_len() + pointer_len())))];
        assert_eq!(m.run(free(p)), Outcome::Unit);
        assert_eq!(m.actions.len(), 2);
        assert_eq!(
            m.actions[1],
            Action::Dealloc { at: p - data_offset(layout.align), layout }
        );
        assert_eq!(m.blocks, before);
    }
    assert!(m.holds(kept, 9, 3));
}

#[test]
fn realloc_of_null_mallocs() {
    for size in [0, 1, 50, usize::MAX] {
        assert_eq!(realloc(0, size), malloc(size));
    }
}

#[test]
fn realloc_to_nothing_frees() {
    let mut m = Memory::new();
    let p = m.pointer(malloc(20));
    assert_eq!(m.run(realloc(p, 0)), NULL);
    assert!(m.blocks.is_empty());
}

#[test]
fn realloc_grows_and_keeps_the_data() {
    let mut m = Memory::new();
    let p = m.pointer(malloc(20));
    m.fill(p, 20, 5);
    let q = m.pointer(realloc(p, 200));
    assert!(q != 0 && q != p);
    assert!(m.holds(q, 20, 5));
    assert_eq!(m.blocks.len(), 1);
    assert_eq!(m.blocks[&(q - data_offset(default_align()))].size, data_offset(default_align()) + 200);
    assert_eq!(m.actions.len(), 6);
    assert_eq!(m.actions[3], Action::Copy { from: p, to: q, len: 20 });
}

#[test]
fn realloc_shrinks_and_keeps_the_data() {
    let mut m = Memory::new();
    let p = m.pointer(malloc(200));
    m.fill(p, 200, 9);
    let q = m.pointer(realloc(p, 30));
    assert!(m.holds(q, 30, 9));
    assert_eq!(m.actions[3], Action::Copy { from: p, to: q, len: 30 });
    assert_eq!(m.run(free(q)), Outcome::Unit);
    assert!(m.blocks.is_empty());
}

#[test]
fn realloc_keeps_the_alignment() {
    let mut m = Memory::new();
    let p = m.pointer(aligned_alloc(512, 20));
    let q = m.pointer(realloc(p, 40));
    assert_eq!(q % 512, 0);
    assert_eq!(m.blocks[&(q - 512)], Layout { size: 512 + 40, align: 512 });
    let r = m.pointer(realloc(q, 10));
    assert_eq!(r % 512, 0);
}

#[test]
fn a_failed_realloc_keeps_the_allocation() {
    let mut m = Memory::new();
    let p = m.pointer(malloc(20));
    m.fill(p, 20, 1);
    let before = m.blocks.clone();
    m.refuse = true;
    assert_eq!(m.run(realloc(p, 40)), NULL);
    assert_eq!(m.actions.len(), 2);
    assert_eq!(m.run(realloc(p, usize::MAX)), NULL);
    assert_eq!(m.actions.len(), 1);
    assert_eq!(m.blocks, before);
    assert!(m.holds(p, 20, 1));
    assert_eq!(m.run(free(p)), Outcome::Unit);
    assert!(m.blocks.is_empty());
}

#[test]
fn data_survives_two_resizes() {
    let mut m = Memory::new();
    let p = m.pointer(calloc(10, 10));
    m.fill(p, 100, 40);
    let q = m.pointer(realloc(p, 60));
    let r = m.pointer(realloc(q, 300));
    assert!(m.holds(r, 60, 40));
    assert_eq!(m.blocks.len(), 1);
}

#[test]
fn allocations_do_not_disturb_each_other() {
    let mut m = Memory::new();
    let sizes = [1, 7, 16, 33, 64, 100];
    let mut live = Vec::new();
    for (i, size) in sizes.iter().enumerate() {
        let p = m.pointer(aligned_alloc(1 << i, *size));
        m.fill(p, *size, i);
        live.push((p, *size, i));
    }
    for (p, size, seed) in &live {
        assert!(m.holds(*p, *size, *seed));
    }
    let (p, size, seed) = live.remove(2);
    let q = m.pointer(realloc(p, 500));
    assert!(m.holds(q, size, seed));
    m.fill(q, 500, 99);
    for (p, size, seed) in &live {
        assert!(m.holds(*p, *size, *seed));
    }
    assert_eq!(m.run(free(q)), Outcome::Unit);
    for (p, size, seed) in &live {
        assert!(m.holds(*p, *size, *seed));
        assert_eq!(m.run(free(*p)), Outcome::Unit);
    }
    assert!(m.blocks.is_empty());
}

#[test]
fn giving_everything_up_restores_the_blocks() {
    let mut m = Memory::new();
    let older = m.pointer(malloc(12));
    m.fill(older, 12, 8);
    let before = m.blocks.clone();
    let mut held = vec![m.pointer(malloc(5)), m.pointer(calloc(2, 9))];
    assert_eq!(m.run(posix_memalign(0x100, 64, 3)), Outcome::Code(0));
    held.push(m.word(0x100));
    m.put_word(0x100, 0);
    m.fill(held[0], 5, 2);
    assert_eq!(m.blocks.len(), before.len() + held.len());
    held[0] = m.pointer(realloc(held[0], 70));
    assert!(m.holds(held[0], 5, 2));
    assert_eq!(m.blocks.len(), before.len() + held.len());
    m.refuse = true;
    assert_eq!(m.run(realloc(held[1], 99)), NULL);
    assert_eq!(m.run(malloc(1)), NULL);
    assert_eq!(m.blocks.len(), before.len() + held.len());
    m.refuse = false;
    held.push(m.pointer(realloc(0, 4)));
    assert_eq!(m.run(free(0)), Outcome::Unit);
    assert_eq!(m.run(realloc(held.remove(1), 0)), NULL);
    for p in held {
        assert_eq!(m.run(free(p)), Outcome::Unit);
    }
    assert_eq!(m.blocks, before);
    assert!(m.holds(older, 12, 8));
}

#[test]
fn memory_of_the_programs_own_comes_and_goes() {
    let mut m = Memory::new();
    let p = m.pointer(malloc(10));
    m.fill(p, 10, 6);
    let block = p - data_offset(default_align());
    m.fill(block - 64, 64, 1);
    m.fill(p + 10, 64, 1);
    for i in 0..64 {
        m.bytes.remove(&(block - 64 + i));
    }
    assert!(m.holds(p, 10, 6));
    let q = m.pointer(realloc(p, 20));
    assert!(m.holds(q, 10, 6));
    assert_eq!(m.run(free(q)), Outcome::Unit);
    assert!(m.blocks.is_empty());
}

#[test]
fn replies_of_the_wrong_kind_are_not_accepted() {
    let l = Layout { size: 64, align: 16 };
    let requesting = malloc(10);
    assert!(requesting.accepts(Reply::Address(0)));
    assert!(requesting.accepts(Reply::Address(4096)));
    assert!(!requesting.accepts(Reply::Address(usize::MAX)));
    assert!(!requesting.accepts(Reply::Done));
    assert!(!requesting.accepts(Reply::Header(l)));
    let freeing = free(4096);
    assert!(freeing.accepts(Reply::Header(l)));
    assert!(!freeing.accepts(Reply::Header(Layout { size: 64, align: 0 })));
    assert!(!freeing.accepts(Reply::Header(Layout { size: 64, align: 8192 })));
    assert!(!freeing.accepts(Reply::Done));
    let resizing = realloc(4096, 9);
    assert!(resizing.accepts(Reply::Header(l)));
    assert!(!resizing.accepts(Reply::Header(Layout { size: 8, align: 16 })));
    assert!(!malloc(0).accepts(Reply::Done));
}

#[test]
fn a_block_may_end_where_the_address_space_does() {
    let call = malloc(16);
    let (size, align, _) = asks_for(call);
    let raw = usize::MAX - size + 1;
    assert_eq!(raw % align, 0);
    assert!(call.accepts(Reply::Address(raw)));
    let tagged = call.resume(Reply::Address(raw));
    assert_eq!(
        tagged.action(),
        Action::WriteHeader {
            at: raw + data_offset(align) - header_len(),
            header: Layout { size, align },
        }
    );
    assert_eq!(
        at_once(tagged.resume(Reply::Done)),
        Outcome::Pointer(raw + data_offset(align))
    );
    assert!(!call.accepts(Reply::Address(raw + 1)));
}
