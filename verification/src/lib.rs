//! A freeing-bump allocator over a fixed-size linear byte buffer.
//!
//! The allocator hands out small integer handles into a host-owned buffer.
//! Requests are rounded up to power-of-two size classes from 8 bytes through
//! 16 MiB; freed blocks are kept on per-class LIFO free lists whose link
//! pointers live inline in the freed blocks' headers, and a monotonic bump
//! cursor serves requests no free list can satisfy.

pub mod classes;
pub mod model;
pub mod heap;
pub mod laws;
pub mod proofs;
