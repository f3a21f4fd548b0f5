# picolibc: malloc

C memory allocation for freestanding programs, forwarded to the Rust global
allocator: `malloc`, `calloc`, `aligned_alloc`, `memalign`, `posix_memalign`,
`free` and `realloc`.

Each allocation keeps the size and the alignment of its block in a header just
before the pointer that C gets. `free` and `realloc` recover the block from there.

## Layout

- `src/` is the verified library.
  - `layout`: sizes, alignments, and where header and data go in a block.
  - `call`: a C call in progress. It names one memory access at a time and is
    resumed with what came of it.
  - `malloc`: the C functions, each of which starts a call.
  - `heap`: a model of memory and of the allocator, and what it means for a call
    to go well in every possible way.
  - `promise`: what each function owes its caller.
  - `assurance`, `laws`, `series`: the proofs, of single calls and of whole series
    of them.
- `app/` exports the C symbols. It performs the accesses, and decides nothing.
- `tests/` drives the functions against a simulated memory.

## What is proved

For every sound memory, every allocator that gives out sound blocks or refuses
them, and every argument that C allows:

- each access that a call makes is sound, and the call returns after at most six
  of them;
- a pointer handed out is aligned as asked, has exactly the bytes asked for, and
  overlaps no other allocation;
- `calloc` memory is zero, and `realloc` keeps the data and the alignment;
- `free` gives a block back at the address and with the layout it was given out
  with;
- a call without a block leaves every allocation as it was;
- through any series of calls, with the program at work in between, there is one
  block for each pointer the program holds, and none is left once it has given all
  of them up.

The header takes two machine words. On every target that is the size and the
alignment of `core::alloc::Layout`.
