//! An array-backed binary heap with a pluggable priority relation, and a small
//! in-place comparison sort.
//!
//! The heap keeps its elements in a `Vec` in breadth-first order and restores
//! its shape by a swim after each insertion and a sink after each extraction.
//! Every executable function carries a contract over the sequence model in
//! [`model`]. What a single swim or sink achieves is proved in [`lemmas`],
//! and what holds across operations in [`laws`].

pub mod heap;
pub mod laws;
pub mod lemmas;
pub mod model;
pub mod priority;
pub mod sort;
pub mod std_slice;

pub use heap::{Heap, MaxHeap, MinHeap};
pub use priority::{Ascending, Descending, Priority};
pub use sort::sort;
