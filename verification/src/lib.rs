//! C memory allocation (`malloc`, `calloc`, `aligned_alloc`, `memalign`,
//! `posix_memalign`, `free`, `realloc`) on top of a layout-aware allocator such
//! as Rust's global one.
//!
//! Every allocation keeps the layout of its block in a header immediately before
//! the address that the C program gets, so that `free` and `realloc` recover size
//! and alignment without a separate table:
//!
//! ```text
//! +---------+-----------------+--------------------------+
//! | padding | header (layout) | user data (size bytes)   |
//! +---------+-----------------+--------------------------+
//! ^ block                     ^ user address
//! ```
//!
//! The functions of [`malloc`] do not touch memory. Each starts a
//! [`call::Call`], which names one access to the allocator or to memory at a time;
//! a driver performs it and resumes the call with what came of it. [`heap`] models
//! memory, [`promise`] says what each function owes its caller. [`conduct`]
//! says what they do step by step, from their arguments alone. [`assurance`],
//! [`laws`] and [`series`] prove that every possible course of a call, and of any
//! series of calls, keeps it.

pub mod assurance;
pub mod call;
pub mod conduct;
pub mod heap;
pub mod laws;
pub mod layout;
pub mod malloc;
pub mod promise;
pub mod series;
