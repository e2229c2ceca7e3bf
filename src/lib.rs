//! Bidirectional interning tables: each distinct value gets a dense,
//! zero-based code in first-occurrence order, and codes map back to
//! values.

pub mod model;
pub mod interface;
pub mod hash_integeriser;
pub mod btree_integeriser;
pub mod laws;
pub mod order;

pub use interface::{integerise_all, Integeriser};
pub use hash_integeriser::{FnvHashIntegeriser, HashIntegeriser};
pub use btree_integeriser::BTreeIntegeriser;
